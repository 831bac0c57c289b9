//! A small templating engine.
//!
//! A format string mixes literal text with placeholders written `%(selector)`;
//! `%%` stands for a literal `%`. [`Formatter::build`] parses such a string once
//! into a reusable template. A [`Templater`] binds selector names to accessors
//! of a target object and renders a template against an object by asking each
//! accessor in turn.
//!
//! Every function here carries a contract over a mathematical model of its
//! data: a template is a sequence of [`grammar::ElementView`], a registry is a
//! map from selector text to [`binding::Binding`]. The module [`grammar`]
//! says what a format string means, the module [`render`] what rendering
//! gives; both state and prove the laws that follow.

#![allow(unused_imports)]

pub mod binding;
pub mod builder;
pub mod err;
pub mod formatter;
pub mod grammar;
pub mod render;
pub mod segment;
pub mod templater;

pub use builder::TemplaterBuilder;
pub use err::TemplateError;
pub use formatter::Formatter;
pub use templater::Templater;
