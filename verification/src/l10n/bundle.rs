//! Reading a locale bundle.

use std::collections::HashMap;
use vstd::hash_map::StringHashMap;
use vstd::prelude::*;

verus! {

/// The error of `serde_json`. Nothing is stated of a value of this type.
#[verifier::external_type_specification]
#[verifier::external_body]
pub struct ExSerdeJsonError(serde_json::Error);

/// What `serde_json::from_str` makes of a text that is to hold a JSON object of strings: the map
/// from its keys to its values, or nothing where it refuses the text.
pub uninterp spec fn json_string_map(raw: Seq<char>) -> Option<Map<Seq<char>, Seq<char>>>;

/// The map that holds each message under its ID. Of two messages with one ID the later one counts.
pub open spec fn message_map(messages: Seq<(String, String)>) -> Map<Seq<char>, Seq<char>>
    decreases messages.len(),
{
    if messages.len() == 0 {
        Map::empty()
    } else {
        message_map(messages.drop_last()).insert(messages.last().0@, messages.last().1@)
    }
}

/// The map of the messages, where there are any to speak of.
pub open spec fn parsed_map(parsed: Result<Vec<(String, String)>, serde_json::Error>) -> Option<
    Map<Seq<char>, Seq<char>>,
> {
    match parsed {
        Ok(messages) => Some(message_map(messages@)),
        Err(_) => None,
    }
}

/// Reads JSON with `serde_json::from_str` as a map of borrowed strings. The map that comes back, or
/// that none does, depends on the text alone and is named by `json_string_map`; each of its keys is
/// there once, in an order that is left open. What the JSON grammar makes of a given text is not
/// stated. Strings are borrowed from the text, so one that is written with an escape is refused.
#[verifier::external_body]
fn parse_string_map(raw: &str) -> (parsed: Result<Vec<(String, String)>, serde_json::Error>)
    ensures
        parsed_map(parsed) == json_string_map(raw@),
{
    let map: HashMap<&str, &str> = serde_json::from_str(raw)?;
    Ok(map.into_iter().map(|(id, text)| (id.to_owned(), text.to_owned())).collect())
}

/// The text of a bundle is no JSON object of strings.
#[derive(Clone, Copy, Debug, PartialEq, Eq, Structural)]
pub struct InvalidBundle;

/// The messages of one locale: `message_id -> translated_text`.
pub struct Bundle {
    messages: StringHashMap<String>,
}

impl View for Bundle {
    type V = Map<Seq<char>, Seq<char>>;

    closed spec fn view(&self) -> Map<Seq<char>, Seq<char>> {
        self.messages@.map_values(|text: String| text@)
    }
}

impl Bundle {
    /// The messages by their IDs.
    fn index_messages(messages: Vec<(String, String)>) -> (found: StringHashMap<String>)
        ensures
            found@.map_values(|text: String| text@) == message_map(messages@),
    {
        let mut found: StringHashMap<String> = StringHashMap::new();
        let ghost text_of = |text: String| text@;
        let mut k: usize = 0;
        assert(found@.map_values(text_of) =~= message_map(messages@.take(0)));
        while k < messages.len()
            invariant
                k <= messages@.len(),
                text_of == (|text: String| text@),
                found@.map_values(text_of) == message_map(messages@.take(k as int)),
            decreases messages@.len() - k,
        {
            let ghost earlier = found@;
            let id = messages[k].0.clone();
            let text = messages[k].1.clone();
            proof {
                let shown = messages@.take(k + 1);
                assert(shown.drop_last() =~= messages@.take(k as int));
                assert(shown.last() == messages@[k as int]);
                assert(earlier.insert(id@, text).map_values(text_of) =~= earlier.map_values(
                    text_of,
                ).insert(id@, text@));
            }
            found.insert(id, text);
            k = k + 1;
        }
        assert(messages@.take(messages@.len() as int) =~= messages@);
        found
    }

    /// A bundle of the messages, each an ID and a text.
    pub fn from_messages(messages: Vec<(String, String)>) -> (bundle: Self)
        ensures
            bundle@ == message_map(messages@),
            forall|i: int|
                0 <= i < messages@.len() && (forall|j: int|
                    i < j < messages@.len() ==> (#[trigger] messages@[j]).0@ != messages@[i].0@)
                    ==> bundle@.contains_key((#[trigger] messages@[i]).0@)
                    && bundle@[messages@[i].0@] == messages@[i].1@,
            forall|id: Seq<char>|
                #![trigger bundle@.contains_key(id)]
                bundle@.contains_key(id) ==> exists|i: int|
                    0 <= i < messages@.len() && (#[trigger] messages@[i]).0@ == id,
    {
        let ghost shown = messages@;
        let bundle = Bundle { messages: Bundle::index_messages(messages) };
        proof {
            assert forall|i: int|
                0 <= i < shown.len() && (forall|j: int|
                    i < j < shown.len() ==> (#[trigger] shown[j]).0@
                        != shown[i].0@) implies bundle@.contains_key((#[trigger] shown[i]).0@)
                && bundle@[shown[i].0@] == shown[i].1@ by {
                law_last_message_of_an_id_counts(shown, i);
            }
            assert forall|id: Seq<char>|
                #![trigger bundle@.contains_key(id)]
                bundle@.contains_key(id) implies exists|i: int|
                0 <= i < shown.len() && (#[trigger] shown[i]).0@ == id by {
                if forall|i: int| 0 <= i < shown.len() ==> (#[trigger] shown[i]).0@ != id {
                    law_no_other_id_is_held(shown, id);
                }
            }
        }
        bundle
    }

    /// The text of the message, where the bundle has one.
    pub fn get<'a>(&'a self, id: &str) -> (text: Option<&'a str>)
        ensures
            match text {
                Some(text) => self@.contains_key(id@) && text@ == self@[id@],
                None => !self@.contains_key(id@),
            },
    {
        match self.messages.get(id) {
            Some(text) => Some(text.as_str()),
            None => None,
        }
    }
}

/// Reads the text of a bundle.
pub fn read_bundle(raw: &str) -> (bundle: Result<Bundle, InvalidBundle>)
    ensures
        match bundle {
            Ok(bundle) => json_string_map(raw@) == Some(bundle@),
            Err(_) => json_string_map(raw@) is None,
        },
{
    match parse_string_map(raw) {
        Ok(messages) => Ok(Bundle::from_messages(messages)),
        Err(_) => Err(InvalidBundle),
    }
}

/// A message is held with its text unchanged, unless a later one has the same ID.
pub proof fn law_last_message_of_an_id_counts(messages: Seq<(String, String)>, i: int)
    requires
        0 <= i < messages.len(),
        forall|j: int| i < j < messages.len() ==> (#[trigger] messages[j]).0@ != messages[i].0@,
    ensures
        message_map(messages).contains_key(messages[i].0@),
        message_map(messages)[messages[i].0@] == messages[i].1@,
    decreases messages.len(),
{
    if i + 1 < messages.len() {
        let earlier = messages.drop_last();
        assert(messages[messages.len() - 1].0@ != messages[i].0@);
        assert forall|j: int| i < j < earlier.len() implies (#[trigger] earlier[j]).0@
            != earlier[i].0@ by {
            assert(earlier[j] == messages[j]);
        }
        law_last_message_of_an_id_counts(earlier, i);
    }
}

/// An ID that no message has is not held.
pub proof fn law_no_other_id_is_held(messages: Seq<(String, String)>, id: Seq<char>)
    requires
        forall|i: int| 0 <= i < messages.len() ==> (#[trigger] messages[i]).0@ != id,
    ensures
        !message_map(messages).contains_key(id),
    decreases messages.len(),
{
    if messages.len() > 0 {
        let earlier = messages.drop_last();
        assert(messages[messages.len() - 1].0@ != id);
        assert forall|i: int| 0 <= i < earlier.len() implies (#[trigger] earlier[i]).0@ != id by {
            assert(earlier[i] == messages[i]);
        }
        law_no_other_id_is_held(earlier, id);
    }
}

/// A text that was read gives its messages, and only a text that was refused gives nothing.
pub proof fn law_parsed_messages_are_kept(
    parsed: Result<Vec<(String, String)>, serde_json::Error>,
    i: int,
)
    ensures
        parsed is Err <==> parsed_map(parsed) is None,
        parsed is Ok && 0 <= i < parsed->Ok_0@.len() && (forall|j: int|
            i < j < parsed->Ok_0@.len() ==> (#[trigger] parsed->Ok_0@[j]).0@
                != parsed->Ok_0@[i].0@) ==> parsed_map(parsed)->0.contains_key(
            parsed->Ok_0@[i].0@,
        ) && parsed_map(parsed)->0[parsed->Ok_0@[i].0@] == parsed->Ok_0@[i].1@,
        parsed is Ok ==> (forall|id: Seq<char>|
            (forall|j: int|
                0 <= j < parsed->Ok_0@.len() ==> (#[trigger] parsed->Ok_0@[j]).0@ != id)
                ==> !#[trigger] parsed_map(parsed)->0.contains_key(id)),
{
    if let Ok(messages) = parsed {
        if 0 <= i < messages@.len() && (forall|j: int|
            i < j < messages@.len() ==> (#[trigger] messages@[j]).0@ != messages@[i].0@) {
            law_last_message_of_an_id_counts(messages@, i);
        }
        assert forall|id: Seq<char>|
            (forall|j: int|
                0 <= j < messages@.len() ==> (#[trigger] messages@[j]).0@
                    != id) implies !#[trigger] parsed_map(parsed)->0.contains_key(id) by {
            law_no_other_id_is_held(messages@, id);
        }
    }
}

} // verus!
