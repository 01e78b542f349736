//! Lookups of the fields that every manifest kind shares.

use crate::yaml::{child, Document, Value};
use vstd::prelude::*;

verus! {

/// The models of a list of values, in order.
pub open spec fn views<T: View>(items: Seq<T>) -> Seq<T::V> {
    Seq::new(items.len(), |i: int| items[i]@)
}

/// The text at `metadata.name`.
pub open spec fn name_of(v: Value) -> Option<Seq<char>> {
    v.get("metadata"@).get("name"@).as_str()
}

/// The text at `spec.source.repoURL`.
pub open spec fn repo_url_of(v: Value) -> Option<Seq<char>> {
    v.get("spec"@).get("source"@).get("repoURL"@).as_str()
}

/// The text at `spec.source.chart`.
pub open spec fn chart_name_of(v: Value) -> Option<Seq<char>> {
    v.get("spec"@).get("source"@).get("chart"@).as_str()
}

/// The model of an optional text.
pub open spec fn text_view(text: Option<&str>) -> Option<Seq<char>> {
    match text {
        Some(s) => Some(s@),
        None => None,
    }
}

/// The text of an optional document, where it is a string scalar.
pub fn text_of<'a>(found: Option<&'a Document>) -> (text: Option<&'a str>)
    ensures
        text_view(text) == crate::yaml::value_or_bad(found).as_str(),
{
    match found {
        Some(d) => d.as_str(),
        None => None,
    }
}

/// Whether two texts are the same.
pub fn same_text(a: &str, b: &str) -> (r: bool)
    ensures
        r == (a@ == b@),
{
    a.to_owned() == b.to_owned()
}

/// The manifest's name, where `metadata.name` holds a text.
pub fn get_name(yaml: &Document) -> (name: Option<&str>)
    ensures
        text_view(name) == name_of(yaml@),
{
    text_of(child(child(Some(yaml), "metadata"), "name"))
}

/// The URL of the source repository, where `spec.source.repoURL` holds a
/// text.
pub fn get_repo_url(yaml: &Document) -> (url: Option<&str>)
    ensures
        text_view(url) == repo_url_of(yaml@),
{
    text_of(child(child(child(Some(yaml), "spec"), "source"), "repoURL"))
}

/// The name of the chart, where `spec.source.chart` holds a text.
pub fn get_chart_name(yaml: &Document) -> (chart: Option<&str>)
    ensures
        text_view(chart) == chart_name_of(yaml@),
{
    text_of(child(child(child(Some(yaml), "spec"), "source"), "chart"))
}

} // verus!
