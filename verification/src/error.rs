//! Error taxonomy and the per-thread last-error slot.
//!
//! Every failure of a boundary-crossing entry point funnels into one slot per
//! OS thread: the entry point records a rendered message (or the fixed panic
//! sentinel) and hands the caller an empty sentinel descriptor; the caller
//! then reads the message back through an accessor. The slot only moves
//! forward: once a message has been recorded it is only ever overwritten by
//! the next record, never cleared.
//!
//! The library models one slot as a value; the surrounding unverified shell
//! keeps one instance per thread and routes every entry-point call on that
//! thread to it.

use vstd::prelude::*;
use vstd::string::StringExecFnsIsAscii;

verus! {

/// A typed failure of the protocol, carrying a human-readable message.
#[derive(Debug, Clone, PartialEq, Eq)]
pub enum PluginError {
    /// The schema describes a type the host engine cannot represent, or is
    /// itself malformed.
    Format(String),
    /// Buffer, offset and length fields of an array descriptor are
    /// inconsistent.
    Buffer(String),
    /// A keyword argument is missing, mistyped, or the blob cannot be decoded.
    Kwargs(String),
    /// The plugin's compute function reported a domain failure.
    Compute(String),
}

impl PluginError {
    /// The message carried by the error, without its kind prefix.
    pub open spec fn spec_message(&self) -> Seq<char> {
        match self {
            PluginError::Format(m) => m@,
            PluginError::Buffer(m) => m@,
            PluginError::Kwargs(m) => m@,
            PluginError::Compute(m) => m@,
        }
    }
}

/// The kind prefix under which an error renders into the slot.
pub open spec fn spec_kind_prefix(e: &PluginError) -> Seq<char> {
    match e {
        PluginError::Format(_) => "format error: "@,
        PluginError::Buffer(_) => "buffer error: "@,
        PluginError::Kwargs(_) => "kwargs error: "@,
        PluginError::Compute(_) => "compute error: "@,
    }
}

/// What `record` stores for an error: its kind prefix followed by its message.
pub open spec fn spec_rendered(e: &PluginError) -> Seq<char> {
    spec_kind_prefix(e) + e.spec_message()
}

/// The fixed sentinel message that `record_panic` stores.
pub open spec fn spec_panic_sentinel() -> Seq<char> {
    "PANIC"@
}

/// Renders an error as the message the slot stores for it.
pub fn render_error(e: &PluginError) -> (msg: String)
    ensures
        msg@ == spec_rendered(e),
{
    let (prefix, body): (&str, &String) = match e {
        PluginError::Format(m) => ("format error: ", m),
        PluginError::Buffer(m) => ("buffer error: ", m),
        PluginError::Kwargs(m) => ("kwargs error: ", m),
        PluginError::Compute(m) => ("compute error: ", m),
    };
    let mut msg = prefix.to_owned();
    msg.append(body.as_str());
    msg
}

/// Every kind prefix is at least 13 characters long.
pub proof fn lemma_kind_prefix_len(e: &PluginError)
    ensures
        spec_kind_prefix(e).len() >= 13,
{
    reveal_strlit("format error: ");
    reveal_strlit("buffer error: ");
    reveal_strlit("kwargs error: ");
    reveal_strlit("compute error: ");
}

/// A rendered error message is never the panic sentinel, so a caller can
/// always tell a plugin panic from an ordinary typed failure.
pub proof fn lemma_rendered_is_not_panic(e: &PluginError)
    ensures
        spec_rendered(e) != spec_panic_sentinel(),
{
    reveal_strlit("PANIC");
    lemma_kind_prefix_len(e);
    assert(spec_rendered(e).len() >= 13);
    assert(spec_panic_sentinel().len() == 5);
}

/// The per-thread last-error slot.
///
/// Lazily made in its `Empty` state when a thread first fails, it then only
/// ever steps from one recorded message to the next.
pub struct ErrorSlot {
    last: Option<String>,
}

impl ErrorSlot {
    /// The recorded message.
    pub closed spec fn spec_last(&self) -> Option<Seq<char>> {
        match self.last {
            Some(ref m) => Some(m@),
            None => None,
        }
    }

    /// True once a message has been recorded.
    pub open spec fn is_set(&self) -> bool {
        self.spec_last() is Some
    }

    /// True when the recorded message is the panic sentinel.
    pub open spec fn holds_panic(&self) -> bool {
        self.spec_last() == Some(spec_panic_sentinel())
    }

    /// A fresh slot: nothing recorded yet.
    pub fn new() -> (slot: ErrorSlot)
        ensures
            !slot.is_set(),
    {
        ErrorSlot { last: None }
    }

    /// Records a typed failure, overwriting whatever was recorded before.
    pub fn record(&mut self, e: &PluginError)
        ensures
            final(self).spec_last() == Some(spec_rendered(e)),
            !final(self).holds_panic(),
    {
        proof {
            lemma_rendered_is_not_panic(e);
        }
        self.last = Some(render_error(e));
    }

    /// Records that the plugin panicked, overwriting whatever was recorded
    /// before.
    pub fn record_panic(&mut self)
        ensures
            final(self).spec_last() == Some(spec_panic_sentinel()),
            final(self).holds_panic(),
    {
        self.last = Some("PANIC".to_owned());
    }

    /// Reads the recorded message. The borrow is valid until the next
    /// `record` or `record_panic` on the same slot; a caller that wants to
    /// keep it across calls must copy it out first.
    pub fn last_message(&self) -> (msg: Option<&String>)
        ensures
            match msg {
                Some(m) => self.spec_last() == Some(m@),
                None => !self.is_set(),
            },
    {
        self.last.as_ref()
    }
}

} // verus!
