//! Lists of texts as JSON.
use vstd::prelude::*;

verus! {

/// An error of serialisation.
#[verifier::external_type_specification]
#[verifier::external_body]
pub struct ExJsonError(serde_json::Error);

/// A list of texts as `serde_json` prints it.
pub uninterp spec fn pretty_json(list: Seq<Seq<char>>) -> Seq<char>;

/// Nothing in the text is escaped in JSON: it has no quotation mark, no backslash and no
/// control character.
pub open spec fn is_plain(text: Seq<char>) -> bool {
    forall|i: int|
        0 <= i < text.len() ==> (#[trigger] text[i]) != '"' && text[i] != '\\' && text[i] >= ' '
}

/// The texts in quotation marks, each on a line of its own and indented by two spaces.
pub open spec fn quoted_lines(list: Seq<Seq<char>>) -> Seq<Seq<char>> {
    Seq::new(list.len(), |i: int| "\n  \""@ + list[i] + "\""@)
}

/// A list of texts in which nothing is escaped, as pretty-printed JSON.
pub open spec fn plain_json(list: Seq<Seq<char>>) -> Seq<char> {
    if list.len() == 0 {
        "[]"@
    } else {
        "["@ + crate::text::join(quoted_lines(list), ","@) + "\n]"@
    }
}

/// The text is the list as pretty-printed JSON.
pub open spec fn is_json_list(list: Seq<Seq<char>>, text: Seq<char>) -> bool {
    &&& text == pretty_json(list)
    &&& (forall|i: int| 0 <= i < list.len() ==> is_plain(#[trigger] list[i])) ==> text
        == plain_json(list)
}

/// `serde_json::to_string_pretty` on a list of texts. It does not fail, as it can only do so
/// for values that refuse to be serialised or have keys that are no texts. Its result is a
/// function of the texts: a list with one text per line, indented by two spaces. How
/// characters are escaped is left unsaid.
#[verifier::external_body]
fn to_string_pretty(list: &Vec<String>) -> (r: Result<String, serde_json::Error>)
    ensures
        r is Ok,
        r->Ok_0@ == pretty_json(crate::text::views(list@)),
        (forall|i: int|
            0 <= i < list@.len() ==> is_plain(#[trigger] crate::text::views(list@)[i]))
            ==> r->Ok_0@ == plain_json(crate::text::views(list@)),
{
    serde_json::to_string_pretty(list)
}

/// A list of texts as pretty-printed JSON.
pub fn json_list(list: &Vec<String>) -> (r: String)
    ensures
        is_json_list(crate::text::views(list@), r@),
{
    match to_string_pretty(list) {
        Ok(text) => text,
        Err(_) => {
            assert(false);
            String::new()
        },
    }
}

} // verus!
