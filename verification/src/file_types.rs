//! The labels of the file types that callers may name.

use crate::options::texts;
use vstd::prelude::*;

verus! {

/// The labels, each language followed by its extension where it has one.
pub open spec fn supported_file_types() -> Seq<Seq<char>> {
    seq![
        "rust"@,
        "rs"@,
        "javascript"@,
        "js"@,
        "typescript"@,
        "ts"@,
        "python"@,
        "py"@,
        "go"@,
        "java"@,
        "c"@,
        "cpp"@,
        "html"@,
        "css"@,
        "json"@,
        "xml"@,
        "yaml"@,
        "yml"@,
        "toml"@,
        "markdown"@,
        "md"@,
        "text"@,
        "txt"@,
    ]
}

/// The fixed list of labels. It informs callers and steers nothing in a search.
pub fn get_supported_file_types() -> (labels: Vec<String>)
    ensures
        texts(labels@) == supported_file_types(),
{
    let mut labels: Vec<String> = Vec::new();
    labels.push(String::from_str("rust"));
    labels.push(String::from_str("rs"));
    labels.push(String::from_str("javascript"));
    labels.push(String::from_str("js"));
    labels.push(String::from_str("typescript"));
    labels.push(String::from_str("ts"));
    labels.push(String::from_str("python"));
    labels.push(String::from_str("py"));
    labels.push(String::from_str("go"));
    labels.push(String::from_str("java"));
    labels.push(String::from_str("c"));
    labels.push(String::from_str("cpp"));
    labels.push(String::from_str("html"));
    labels.push(String::from_str("css"));
    labels.push(String::from_str("json"));
    labels.push(String::from_str("xml"));
    labels.push(String::from_str("yaml"));
    labels.push(String::from_str("yml"));
    labels.push(String::from_str("toml"));
    labels.push(String::from_str("markdown"));
    labels.push(String::from_str("md"));
    labels.push(String::from_str("text"));
    labels.push(String::from_str("txt"));
    assert(texts(labels@) =~= supported_file_types());
    labels
}

} // verus!
