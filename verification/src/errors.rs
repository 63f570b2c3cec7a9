//! What can become of a block.
use crate::hash::Hash256;
use crate::hexcodec::{hex_encode, hex_text};
use crate::text::{cat2, cat3, is_prefix, quote_text, quoted_text, starts_with};
use vstd::prelude::*;
use vstd::string::*;

verus! {

/// Why a block was not taken in.
#[derive(Debug)]
pub enum ProcessBlockError {
    /// The block is no good, or could not be handled; the state is consistent.
    Recoverable(String),
    /// The unspent outputs are corrupted: the node has to stop.
    Fatal(String),
    /// A block between here and the common ancestor is missing. It is to be
    /// asked for; the sender is not to blame.
    MissingReorgAncestor(Hash256),
}

/// What a `ProcessBlockError` says.
pub ghost enum FaultView {
    Recoverable(Seq<char>),
    Fatal(Seq<char>),
    MissingReorgAncestor(Hash256),
}

impl View for ProcessBlockError {
    type V = FaultView;

    open spec fn view(&self) -> FaultView {
        match self {
            ProcessBlockError::Recoverable(m) => FaultView::Recoverable(m@),
            ProcessBlockError::Fatal(m) => FaultView::Fatal(m@),
            ProcessBlockError::MissingReorgAncestor(h) => FaultView::MissingReorgAncestor(*h),
        }
    }
}

impl FaultView {
    /// The message of an error.
    pub open spec fn text(self) -> Seq<char> {
        match self {
            FaultView::Recoverable(m) => m,
            FaultView::Fatal(m) => "FATAL: "@ + m,
            FaultView::MissingReorgAncestor(h) => "missing reorg ancestor: "@ + hex_text(h.0@),
        }
    }
}

impl FaultView {
    /// An error with its kind, given its message in quotes.
    pub open spec fn text_with_kind(self, quoted: Seq<char>) -> Seq<char> {
        match self {
            FaultView::Recoverable(_) => "Recoverable("@ + quoted + ")"@,
            FaultView::Fatal(_) => "Fatal("@ + quoted + ")"@,
            FaultView::MissingReorgAncestor(h) => "MissingReorgAncestor("@ + hex_text(h.0@) + ")"@,
        }
    }

    /// An error with its kind, its message in quotes.
    pub open spec fn full_text(self) -> Seq<char> {
        match self {
            FaultView::Recoverable(m) => self.text_with_kind(quoted_text(m)),
            FaultView::Fatal(m) => self.text_with_kind(quoted_text(m)),
            FaultView::MissingReorgAncestor(_) => self.text_with_kind(Seq::empty()),
        }
    }
}

/// How the messages of header rejections begin.
pub open spec fn header_failure_prefix() -> Seq<char> {
    "block header validation failed"@
}

impl ProcessBlockError {
    /// Whether the node has to stop.
    pub fn is_fatal(&self) -> (r: bool)
        ensures
            r == (self@ is Fatal),
    {
        match self {
            ProcessBlockError::Fatal(_) => true,
            _ => false,
        }
    }

    /// Whether only the header was at fault, so that the transactions of the
    /// block may still be good.
    pub fn is_header_only(&self) -> (r: bool)
        ensures
            r == (self@ matches FaultView::Recoverable(m) && is_prefix(header_failure_prefix(), m)),
    {
        match self {
            ProcessBlockError::Recoverable(msg) => starts_with(
                msg.as_str(),
                "block header validation failed",
            ),
            _ => false,
        }
    }

    /// The message of an error.
    pub fn message(&self) -> (r: String)
        ensures
            r@ == self@.text(),
    {
        match self {
            ProcessBlockError::Recoverable(msg) => msg.clone(),
            ProcessBlockError::Fatal(msg) => cat2("FATAL: ", msg.as_str()),
            ProcessBlockError::MissingReorgAncestor(h) => {
                let hex = hex_encode(h.0.as_slice());
                cat2("missing reorg ancestor: ", hex.as_str())
            },
        }
    }
}

impl ProcessBlockError {
    /// An error with its kind, given its message in quotes.
    pub fn message_with_kind(&self, quoted: &str) -> (r: String)
        ensures
            r@ == self@.text_with_kind(quoted@),
    {
        match self {
            ProcessBlockError::Recoverable(_) => cat3("Recoverable(", quoted, ")"),
            ProcessBlockError::Fatal(_) => cat3("Fatal(", quoted, ")"),
            ProcessBlockError::MissingReorgAncestor(h) => {
                let hex = hex_encode(h.0.as_slice());
                cat3("MissingReorgAncestor(", hex.as_str(), ")")
            },
        }
    }

    /// An error with its kind, its message in quotes.
    pub fn full_message(&self) -> (r: String)
        ensures
            r@ == self@.full_text(),
    {
        match self {
            ProcessBlockError::Recoverable(msg) => {
                let quoted = quote_text(msg.as_str());
                self.message_with_kind(quoted.as_str())
            },
            ProcessBlockError::Fatal(msg) => {
                let quoted = quote_text(msg.as_str());
                self.message_with_kind(quoted.as_str())
            },
            ProcessBlockError::MissingReorgAncestor(_) => {
                proof {
                    reveal_strlit("");
                    assert(""@ =~= Seq::<char>::empty());
                }
                self.message_with_kind("")
            },
        }
    }
}

impl From<String> for ProcessBlockError {
    fn from(s: String) -> (r: Self) {
        ProcessBlockError::Recoverable(s)
    }
}

impl vstd::std_specs::convert::FromSpecImpl<String> for ProcessBlockError {
    open spec fn obeys_from_spec() -> bool {
        true
    }

    open spec fn from_spec(s: String) -> Self {
        ProcessBlockError::Recoverable(s)
    }
}

/// What became of a block that was handled without an error.
#[derive(Debug, Clone, Copy, PartialEq, Eq, Structural)]
pub enum ProcessBlockOutcome {
    /// The block is the new tip.
    Accepted,
    /// The block was known, or is kept as part of a fork.
    Stored,
    /// The block is too far in the future, and waits.
    BufferedFuture,
}

} // verus!
