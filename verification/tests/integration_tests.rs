use std::collections::BTreeMap;
use templater_rs::builder::TemplaterBuilder;
use templater_rs::formatter::Formatter;

struct Book {
    id: i64,
    title: String,
    author: String,
    contributors: Option<String>,
}

#[derive(Debug)]
struct ComplexObject {
    a: i64,
    b: String,
    c: Option<String>,
    d: Vec<String>,
    e: ComplexSubObject,
}

#[derive(Debug)]
struct ComplexSubObject {
    f: (i32, i32),
    g: Vec<Option<i32>>,
    h: BTreeMap<String, i32>,
    i: Option<String>,
}

fn create_complex() -> ComplexObject {
    let mut map = BTreeMap::new();
    map.insert("hundred".to_owned(), 100);
    map.insert("thousand".to_owned(), 1000);
    map.insert("ten thousand".to_owned(), 10000);
    ComplexObject {
        a: 64,
        b: "a string".to_owned(),
        c: Some("optional".to_owned()),
        d: vec!["first".to_owned(), "second".to_owned()],
        e: ComplexSubObject { f: (-2147, 2147), g: vec![], h: map, i: None },
    }
}

#[test]
fn test_readme_example() {
    let my_book = Book {
        id: 9784832275492,
        title: "Hidamari Sketch".to_owned(),
        author: "蒼樹うめ".to_owned(),
        contributors: None,
    };

    let format_string = "[%(id)] %(title) %(所有作者)";

    let templater = TemplaterBuilder::<Book>::new()
        .with_selector("id", |book| Some(book.id.to_string()))
        .with_selector("title", |book| Some(book.title.clone()))
        .with_selector("所有作者", |book| {
            Some(format!("(By: {}{})",
                &book.author,
                &book.contributors.clone().map(|x| format!(", {}", x)).or(Some("".to_owned())).unwrap())
            )
        })
        .build();

    {
        let result = templater.render(&my_book, format_string);
        assert!(result.is_ok());
        assert_eq!(
            result.ok().unwrap(),
            "[9784832275492] Hidamari Sketch (By: 蒼樹うめ)"
        );
    }
    {
        let formatter_result = Formatter::build(format_string);
        assert!(formatter_result.is_ok());
        let formatter = formatter_result.ok().unwrap();
        let result = templater.renderf(&my_book, &formatter);
        assert!(result.is_ok());
        assert_eq!(
            result.ok().unwrap(),
            "[9784832275492] Hidamari Sketch (By: 蒼樹うめ)"
        );
    }
}

#[test]
fn test_typical_workflow() {
    let templater = TemplaterBuilder::<ComplexObject>::new()
        .with_selector("a", |o| Some(o.a.to_string()))
        .with_selector("b", |o| Some(o.b.clone()))
        .with_selector("c", |o| o.c.clone())
        .with_selector("d", |o| Some(format!("{:?}", &o.d)))
        .with_selector("e", |o| Some(format!("{:?}", &o.e)))
        .with_selector("f", |o| Some(format!("({},{})", o.e.f.0, o.e.f.1)))
        .with_selector("g", |o| Some(format!("{:?}", &o.e.g)))
        .with_selector("h", |o| Some(format!("{:?}", &o.e.h)))
        .with_selector("i", |o| o.e.i.clone())
        .build();

    let obj = create_complex();
    let format_string = "|%(a)|%(b)|%(c)|%(d)|%(e)|%(f)|%(g)|%(h)|%(i)|";

    let result = templater.render(&obj, format_string);

    assert!(result.is_ok());
    assert_eq!(
        result.ok().unwrap(),
        "|64|a string|optional|[\"first\", \"second\"]|ComplexSubObject { f: (-2147, 2147), g: [], h: {\"hundred\": 100, \"ten thousand\": 10000, \"thousand\": 1000}, i: None }|(-2147,2147)|[]|{\"hundred\": 100, \"ten thousand\": 10000, \"thousand\": 1000}|NA|"
    );
}
