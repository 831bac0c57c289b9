use unicode_segmentation::UnicodeSegmentation;
use vstd::prelude::*;

verus! {

/// The extended grapheme clusters of a text, in the order in which they occur.
///
/// Which characters form one cluster is decided by the Unicode segmentation
/// rules and is not stated here.
pub uninterp spec fn grapheme_clusters(text: Seq<char>) -> Seq<Seq<char>>;

/// Splits a text into its extended grapheme clusters.
///
/// Calls `UnicodeSegmentation::graphemes` with `is_extended` set and copies
/// each slice that the iterator yields. Taken on trust: the clusters are the
/// ones the segmentation rules give for this text; none of them is empty; and
/// written one after the other they are the text again, since the iterator
/// hands out consecutive slices of its input until the input is used up.
#[verifier::external_body]
pub(crate) fn split_graphemes(text: &str) -> (clusters: Vec<String>)
    ensures
        clusters.deep_view() == grapheme_clusters(text@),
        clusters.deep_view().flatten() == text@,
        forall|i: int| 0 <= i < clusters.len() ==> (#[trigger] clusters[i])@.len() > 0,
{
    let mut clusters = Vec::new();
    for cluster in text.graphemes(true) {
        clusters.push(cluster.to_owned());
    }
    clusters
}

} // verus!
