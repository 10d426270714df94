//! Decisions behind typed message channels for parallel blocks (`pchannel`,
//! `$tx->send`, `$rx->recv`, `pselect`): which operation a method call asks for,
//! which argument lists are accepted, and the Perl values that report outcomes.
//! The channels themselves are driven by the caller.
use vstd::prelude::*;
use crate::value::{PerlValue, PerlModel, PerlError, ErrorKind};
use crate::text::{str_eq, string_of};

verus! {

/// What a value is, as far as channels are concerned.
#[derive(Debug, Clone, Copy, PartialEq, Eq, Structural)]
pub enum ChannelEnd {
    /// The sending end of a `pchannel`.
    Sender,
    /// The receiving end of a `pchannel`.
    Receiver,
    /// Anything else.
    Other,
}

/// A channel operation to perform.
#[derive(Debug, Clone, Copy, PartialEq, Eq, Structural)]
pub enum ChannelOp {
    /// Send the single argument.
    Send,
    /// Block until a value arrives.
    Recv,
}

/// The message of a wrongly-called `send`.
pub open spec fn send_arity_message() -> Seq<char> {
    "send() on pchannel tx expects exactly one value"@
}

/// The message of a wrongly-called `recv`.
pub open spec fn recv_arity_message() -> Seq<char> {
    "recv() on pchannel rx takes no arguments"@
}

/// What a method call on a value means for channels: `None` when it is not a
/// channel method of that value; otherwise the operation, or the error for a wrong
/// argument count.
pub open spec fn spec_dispatch(receiver: ChannelEnd, method: Seq<char>, args_len: nat) -> Option<
    Result<ChannelOp, Seq<char>>,
> {
    if method == "send"@ && receiver == ChannelEnd::Sender {
        if args_len != 1 {
            Some(Err(send_arity_message()))
        } else {
            Some(Ok(ChannelOp::Send))
        }
    } else if method == "recv"@ && receiver == ChannelEnd::Receiver {
        if args_len != 0 {
            Some(Err(recv_arity_message()))
        } else {
            Some(Ok(ChannelOp::Recv))
        }
    } else {
        None
    }
}

/// `$tx->send($v)` and `$rx->recv` without package subs: decides what the call
/// `receiver->method(args)` with `args_len` arguments asks of a channel.
pub fn dispatch_method(receiver: ChannelEnd, method: &str, args_len: usize, line: usize) -> (r: Option<
    Result<ChannelOp, PerlError>,
>)
    ensures
        match (r, spec_dispatch(receiver, method@, args_len as nat)) {
            (None, None) => true,
            (Some(Ok(op)), Some(Ok(sop))) => op == sop,
            (Some(Err(e)), Some(Err(m))) => e.kind == ErrorKind::Runtime && e.message@ == m && e.line
                == line,
            _ => false,
        },
{
    if str_eq(method, "send") {
        if receiver == ChannelEnd::Sender {
            if args_len != 1 {
                return Some(
                    Err(
                        PerlError::runtime(
                            string_of("send() on pchannel tx expects exactly one value"),
                            line,
                        ),
                    ),
                );
            }
            return Some(Ok(ChannelOp::Send));
        }
    }
    if str_eq(method, "recv") {
        if receiver == ChannelEnd::Receiver {
            if args_len != 0 {
                return Some(
                    Err(PerlError::runtime(string_of("recv() on pchannel rx takes no arguments"), line)),
                );
            }
            return Some(Ok(ChannelOp::Recv));
        }
    }
    None
}

/// The value a `send` returns: 1 when the value was delivered, 0 when the channel
/// is disconnected.
pub fn send_outcome(delivered: bool) -> (v: PerlValue)
    ensures
        v@ == PerlModel::Integer(if delivered { 1 } else { 0 }),
{
    PerlValue::Integer(if delivered { 1 } else { 0 })
}

/// The value a `recv` returns: the received value, or `undef` when the channel is
/// disconnected.
pub fn recv_outcome(received: Option<PerlValue>) -> (v: PerlValue)
    ensures
        match received {
            Some(x) => v@ == x@,
            None => v@ == PerlModel::Undef,
        },
{
    match received {
        Some(x) => x,
        None => PerlValue::Undef,
    }
}

/// The message when `pselect` has no arguments.
pub open spec fn pselect_empty_message() -> Seq<char> {
    "pselect() expects at least one pchannel receiver"@
}

/// The message when a `pselect` argument is not a receiver.
pub open spec fn pselect_kind_message() -> Seq<char> {
    "pselect() arguments must be pchannel receivers"@
}

/// Checks the arguments of `pselect`: at least one, and all receiving ends.
pub fn pselect_check(args: &[ChannelEnd], line: usize) -> (r: Result<(), PerlError>)
    ensures
        args@.len() == 0 ==> (r matches Err(e) && e.message@ == pselect_empty_message()),
        args@.len() > 0 && (exists|i: int| 0 <= i < args@.len() && args@[i] != ChannelEnd::Receiver)
            ==> (r matches Err(e) && e.message@ == pselect_kind_message()),
        (args@.len() > 0 && forall|i: int| 0 <= i < args@.len() ==> args@[i] == ChannelEnd::Receiver)
            ==> r is Ok,
        r matches Err(e) ==> e.kind == ErrorKind::Runtime && e.line == line,
{
    if args.len() == 0 {
        return Err(PerlError::runtime(string_of("pselect() expects at least one pchannel receiver"), line));
    }
    let mut i: usize = 0;
    while i < args.len()
        invariant
            i <= args@.len(),
            forall|j: int| 0 <= j < i ==> args@[j] == ChannelEnd::Receiver,
        decreases args@.len() - i,
    {
        if args[i] != ChannelEnd::Receiver {
            return Err(PerlError::runtime(string_of("pselect() arguments must be pchannel receivers"), line));
        }
        i = i + 1;
    }
    Ok(())
}

/// The two-element list `pselect` returns: the received value (`undef` when the
/// chosen channel is disconnected) and the 0-based index of the channel; on timeout
/// (`None`) it is `(undef, -1)`.
pub fn pselect_result(outcome: Option<(usize, Option<PerlValue>)>) -> (v: PerlValue)
    requires
        outcome matches Some((i, _)) ==> i <= i64::MAX,
    ensures
        match outcome {
            None => v@ == PerlModel::Array(seq![PerlModel::Undef, PerlModel::Integer(-1i64)]),
            Some((i, Some(x))) => v@ == PerlModel::Array(seq![x@, PerlModel::Integer(i as i64)]),
            Some((i, None)) => v@ == PerlModel::Array(seq![PerlModel::Undef, PerlModel::Integer(i as i64)]),
        },
{
    let (val, idx) = match outcome {
        None => (PerlValue::Undef, -1i64),
        Some((i, x)) => (recv_outcome(x), i as i64),
    };
    let mut items: Vec<PerlValue> = Vec::new();
    items.push(val);
    items.push(PerlValue::Integer(idx));
    let v = PerlValue::Array(items);
    proof {
        crate::value::lemma_model_seq(items@);
        assert(crate::value::model_seq(items@) =~= seq![crate::value::model_of(items@[0]), PerlModel::Integer(idx)]);
    }
    v
}

} // verus!
