//! The payload of a data URI.

use vstd::prelude::*;
use vstd::string::*;
use vstd::std_specs::iter::IteratorSpec;

verus! {

/// The place of the first comma at or after `from`, or the length of the
/// text where no comma follows.
pub open spec fn comma_from(text: Seq<char>, from: int) -> int
    decreases text.len() - from,
{
    if from >= text.len() {
        text.len() as int
    } else if text[from] == ',' {
        from
    } else {
        comma_from(text, from + 1)
    }
}

/// What follows the first comma of a text; the whole text where it has no
/// comma.
pub open spec fn payload(text: Seq<char>) -> Seq<char> {
    let comma = comma_from(text, 0);
    if comma < text.len() {
        text.subrange(comma + 1, text.len() as int)
    } else {
        text
    }
}

/// `comma_from` finds the first comma: none stands before the place it
/// gives, and one stands there unless the place is the end of the text.
pub proof fn lemma_comma_from(text: Seq<char>, from: int)
    requires
        0 <= from <= text.len(),
    ensures
        from <= comma_from(text, from) <= text.len(),
        forall|i: int| from <= i < comma_from(text, from) ==> text[i] != ',',
        comma_from(text, from) < text.len() ==> text[comma_from(text, from)] == ',',
    decreases text.len() - from,
{
    if from < text.len() && text[from] != ',' {
        lemma_comma_from(text, from + 1);
    }
}

/// A text without a comma is its own payload. A text with one is what stands
/// before its first comma, the comma, and the payload.
pub proof fn lemma_payload_splits(text: Seq<char>)
    ensures
        !text.contains(',') ==> payload(text) == text,
        text.contains(',') ==> {
            let head = text.take(comma_from(text, 0));
            &&& !head.contains(',')
            &&& text == head + seq![','] + payload(text)
        },
{
    lemma_comma_from(text, 0);
    let comma = comma_from(text, 0);
    if text.contains(',') {
        let i = choose|i: int| 0 <= i < text.len() && text[i] == ',';
        assert(comma < text.len());
        let head = text.take(comma);
        assert(text =~= head + seq![','] + payload(text));
    } else {
        if comma < text.len() {
            assert(text[comma] == ',');
        }
    }
}

/// Takes the payload out of a data URI: what follows its first comma. A text
/// without a comma is taken to be the bare payload and handed back whole.
pub fn get_data_from_data_uri(data_uri: &str) -> (data: &str)
    ensures
        data@ == payload(data_uri@),
{
    broadcast use group_string_axioms;

    let length: usize = data_uri.unicode_len();
    let mut rest = data_uri.chars();
    let mut at: usize = 0;
    let mut found: bool = false;
    let ghost text = data_uri@;
    loop
        invariant_except_break
            !found,
            rest.remaining() == text.subrange(at as int, text.len() as int),
            comma_from(text, 0) == comma_from(text, at as int),
        invariant
            text == data_uri@,
            0 <= at <= text.len(),
            length == text.len(),
        ensures
            found ==> at < text.len() && comma_from(text, 0) == at,
            !found ==> comma_from(text, 0) == text.len(),
        decreases text.len() - at,
    {
        match rest.next() {
            None => {
                break ;
            },
            Some(c) => {
                if c == ',' {
                    found = true;
                    break ;
                }
                at = at + 1;
            },
        }
    }
    if found {
        data_uri.substring_char(at + 1, length)
    } else {
        data_uri
    }
}

} // verus!
