//! The content of a message of a request.

use vstd::prelude::*;
use vstd::string::StringExecFns;

verus! {

/// One part of a message that comes in parts.
#[derive(Clone, Debug, PartialEq, Eq)]
pub struct ContentItem {
    pub kind: String,
    pub text: String,
}

/// The forms in which a message may come.
#[derive(Clone, Debug, PartialEq, Eq)]
pub enum MessageContent {
    /// A text.
    Text(String),
    /// A list of parts.
    Items(Vec<ContentItem>),
}

/// The texts of the parts, one behind the other.
pub open spec fn combined_text(items: Seq<ContentItem>) -> Seq<char>
    decreases items.len(),
{
    if items.len() == 0 {
        Seq::empty()
    } else {
        combined_text(items.drop_last()) + items.last().text@
    }
}

/// The text of a message.
pub open spec fn content_text(content: MessageContent) -> Seq<char> {
    match content {
        MessageContent::Text(text) => text@,
        MessageContent::Items(items) => combined_text(items@),
    }
}

/// The text of a message, whatever the form it comes in.
pub fn deserialize_content(content: MessageContent) -> (r: String)
    ensures
        r@ == content_text(content),
{
    match content {
        MessageContent::Text(text) => text,
        MessageContent::Items(items) => {
            let mut out = String::new();
            let mut i: usize = 0;
            assert(items@.take(0) =~= Seq::empty());
            while i < items.len()
                invariant
                    i <= items@.len(),
                    out@ == combined_text(items@.take(i as int)),
                decreases items@.len() - i,
            {
                assert(items@.take(i + 1).drop_last() =~= items@.take(i as int));
                out.append(items[i].text.as_str());
                i = i + 1;
            }
            assert(items@.take(i as int) =~= items@);
            out
        },
    }
}

} // verus!
