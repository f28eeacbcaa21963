//! Small helpers for inspection tools and examples built on the library.

use vstd::prelude::*;

verus! {

/// A topic wrapped in brackets for display; with color, the bright
/// magenta terminal escape is wrapped around the topic first.
pub fn format_topic(topic: &str, use_color: bool) -> (r: String)
    ensures
        use_color ==> r@ == "[\u{1b}[95m"@ + topic@ + "\u{1b}[0m]"@,
        !use_color ==> r@ == "["@ + topic@ + "]"@,
{
    if use_color {
        let mut s = String::from_str("[\u{1b}[95m");
        s.append(topic);
        s.append("\u{1b}[0m]");
        s
    } else {
        let mut s = String::from_str("[");
        s.append(topic);
        s.append("]");
        s
    }
}

/// A single row value for `MockMessage`, mirroring its one field.
pub struct MockMessage {
    pub value: i32,
}

impl MockMessage {
    /// The message as a row value: an object with one `value` field.
    pub fn to_value(&self) -> (r: crate::json::JsonVal)
        ensures
            r@ == crate::json::GVal::Obj(
                seq![("value"@, crate::json::GVal::Int(self.value as int))],
            ),
    {
        let mut fields: Vec<(String, crate::json::JsonVal)> = Vec::new();
        fields.push((String::from_str("value"), crate::json::JsonVal::Int(self.value as i64)));
        let v = crate::json::JsonVal::Obj(fields);
        proof {
            crate::json::lemma_gpairs_of(fields@);
            assert(crate::json::gpairs_of(fields@)
                =~= seq![("value"@, crate::json::GVal::Int(self.value as int))]);
        }
        v
    }
}

} // verus!
