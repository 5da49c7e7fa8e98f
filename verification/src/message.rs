//! Messages and their arguments, with the mathematical values that the
//! contracts of this crate speak of.

use vstd::prelude::*;

verus! {

/// One argument of a message.
///
/// A 32-bit float is held as its IEEE-754 bit pattern: that is what travels on
/// the wire, and it keeps every payload, NaN included, intact and comparable.
#[derive(Debug, Clone)]
pub enum Arg {
    /// A 32-bit signed integer, tag `i`.
    Int(i32),
    /// The bit pattern of a 32-bit float, tag `f`.
    Float(u32),
    /// Text without an embedded NUL, tag `s`.
    Str(String),
    /// Opaque bytes, tag `b`.
    Blob(Vec<u8>),
}

/// Mathematical value of an [`Arg`].
pub enum ArgView {
    Int(i32),
    Float(u32),
    Str(Seq<char>),
    Blob(Seq<u8>),
}

impl View for Arg {
    type V = ArgView;

    open spec fn view(&self) -> ArgView {
        match self {
            Arg::Int(i) => ArgView::Int(*i),
            Arg::Float(bits) => ArgView::Float(*bits),
            Arg::Str(s) => ArgView::Str(s@),
            Arg::Blob(b) => ArgView::Blob(b@),
        }
    }
}

impl PartialEq for Arg {
    /// Two arguments are equal when they are of one kind and hold the same
    /// value; floats are compared by their bit patterns.
    fn eq(&self, other: &Self) -> (same: bool) {
        match (self, other) {
            (Arg::Int(a), Arg::Int(b)) => *a == *b,
            (Arg::Float(a), Arg::Float(b)) => *a == *b,
            (Arg::Str(a), Arg::Str(b)) => *a == *b,
            (Arg::Blob(a), Arg::Blob(b)) => {
                let same = *a == *b;
                proof {
                    if same {
                        assert(a@ =~= b@);
                    }
                }
                same
            },
            _ => false,
        }
    }
}

impl vstd::std_specs::cmp::PartialEqSpecImpl for Arg {
    open spec fn obeys_eq_spec() -> bool {
        true
    }

    open spec fn eq_spec(&self, other: &Self) -> bool {
        self@ == other@
    }
}

/// The values of a sequence of arguments, in order.
pub open spec fn args_view(args: Seq<Arg>) -> Seq<ArgView> {
    Seq::new(args.len(), |i: int| args[i]@)
}

/// An address and the ordered arguments sent to it.
#[derive(Debug, Clone)]
pub struct OscMessage {
    pub address: String,
    pub args: Vec<Arg>,
}

/// Mathematical value of an [`OscMessage`].
pub struct MessageView {
    pub address: Seq<char>,
    pub args: Seq<ArgView>,
}

impl View for OscMessage {
    type V = MessageView;

    open spec fn view(&self) -> MessageView {
        MessageView { address: self.address@, args: args_view(self.args@) }
    }
}

impl PartialEq for OscMessage {
    /// Two messages are equal when they have the same address and equal
    /// arguments in the same order.
    fn eq(&self, other: &Self) -> (same: bool) {
        let same = self.address == other.address && self.args == other.args;
        proof {
            if same {
                assert(args_view(self.args@) =~= args_view(other.args@));
            } else if self.address@ == other.address@ {
                if args_view(self.args@) == args_view(other.args@) {
                    assert(other.args@.len() == args_view(other.args@).len());
                    assert forall|i: int| 0 <= i < self.args@.len() implies (
                    #[trigger] self.args@[i])@ == other.args@[i]@ by {
                        assert(args_view(self.args@)[i] == args_view(other.args@)[i]);
                    }
                }
            }
        }
        same
    }
}

impl vstd::std_specs::cmp::PartialEqSpecImpl for OscMessage {
    open spec fn obeys_eq_spec() -> bool {
        true
    }

    open spec fn eq_spec(&self, other: &Self) -> bool {
        self@ == other@
    }
}

impl OscMessage {
    /// A message for `address` that carries `args` in the given order.
    ///
    /// No address is refused, neither an empty one nor one with characters
    /// that OSC reserves: what an address may hold is left to the peers. Only a
    /// NUL matters to the wire format, which ends the address there.
    pub fn new(address: &str, args: Vec<Arg>) -> (message: Self)
        ensures
            message.address@ == address@,
            message.args == args,
            message@ == (MessageView { address: address@, args: args_view(args@) }),
    {
        OscMessage { address: address.to_string(), args }
    }
}

} // verus!
