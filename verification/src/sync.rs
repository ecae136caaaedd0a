//! The sync cursor: how server-sequenced operations are accepted in order, and how a
//! replica is bound to the server workspace it follows.

use vstd::prelude::*;
use crate::text::{chars_of, is_blank, trim, trim_str};

verus! {

/// Why a sync step was refused.
#[derive(Debug, Clone, Copy, PartialEq, Eq, Structural)]
pub enum SyncError {
    /// A server sequence number is assigned to two different operations, or one
    /// operation to two sequence numbers.
    Conflict { seq: u64 },
    /// The batch skips server sequence numbers.
    SequenceGap { expected: u64, got: u64 },
    /// The sync server changed while the workspace binding was being established.
    ServerChanged,
    /// The remote workspace is not the local one.
    WorkspaceMismatch { local: u128, remote: u128 },
    /// A stored cursor or binding is not readable.
    Unreadable,
}

pub open spec fn is_digit(c: char) -> bool {
    '0' <= c && c <= '9'
}

/// The value of a run of decimal digits.
pub open spec fn digits_value(s: Seq<char>) -> nat
    decreases s.len(),
{
    if s.len() == 0 {
        0
    } else {
        digits_value(s.drop_last()) * 10 + ((s.last() as u32) - ('0' as u32)) as nat
    }
}

/// What `str::parse::<u64>` gives: an optional `+` followed by at least one decimal
/// digit, and a value that fits.
pub open spec fn all_digits(d: Seq<char>) -> bool {
    forall|i: int| 0 <= i < d.len() ==> is_digit(#[trigger] d[i])
}

/// `s` without one leading `+`.
pub open spec fn unsigned_part(s: Seq<char>) -> Seq<char> {
    if s.len() > 0 && s[0] == '+' {
        s.drop_first()
    } else {
        s
    }
}

pub open spec fn parsed_u64(s: Seq<char>) -> Option<u64> {
    let d = unsigned_part(s);
    if d.len() > 0 && all_digits(d) && digits_value(d) <= u64::MAX {
        Some(digits_value(d) as u64)
    } else {
        None
    }
}

proof fn lemma_digits_value_prefix(s: Seq<char>, i: int)
    requires
        0 <= i < s.len(),
        forall|j: int| 0 <= j < s.len() ==> is_digit(#[trigger] s[j]),
    ensures
        digits_value(s.take(i)) <= digits_value(s.take(i + 1)),
        digits_value(s.take(i + 1)) == digits_value(s.take(i)) * 10 + ((s[i] as u32) - (
        '0' as u32)) as nat,
{
    assert(s.take(i + 1).drop_last() =~= s.take(i));
}

proof fn lemma_digits_value_monotone(s: Seq<char>, i: int)
    requires
        0 <= i <= s.len(),
        forall|j: int| 0 <= j < s.len() ==> is_digit(#[trigger] s[j]),
    ensures
        digits_value(s.take(i)) <= digits_value(s),
    decreases s.len() - i,
{
    if i < s.len() {
        lemma_digits_value_prefix(s, i);
        lemma_digits_value_monotone(s, i + 1);
    } else {
        assert(s.take(i) =~= s);
    }
}

/// The decimal digit character of `k`.
pub open spec fn digit_char(k: nat) -> char {
    ((48 + k) as u32) as char
}

/// `n` written in decimal, without leading zeros.
pub open spec fn decimal(n: nat) -> Seq<char>
    decreases n,
{
    if n < 10 {
        seq![digit_char(n)]
    } else {
        decimal(n / 10).push(digit_char(n % 10))
    }
}

proof fn lemma_decimal_value(n: nat)
    ensures
        decimal(n).len() > 0,
        all_digits(decimal(n)),
        decimal(n)[0] != '+',
        digits_value(decimal(n)) == n,
    decreases n,
{
    if n < 10 {
        assert(decimal(n).drop_last() =~= Seq::<char>::empty());
        assert((digit_char(n) as u32) == 48 + n);
        assert(digits_value(decimal(n).drop_last()) == 0);
        assert(('0' as u32) == 48);
        assert(decimal(n).last() == digit_char(n));
    } else {
        lemma_decimal_value(n / 10);
        let d = decimal(n);
        assert(d.drop_last() =~= decimal(n / 10));
        assert forall|i: int| 0 <= i < d.len() implies is_digit(#[trigger] d[i]) by {
            if i < d.len() - 1 {
                assert(d[i] == decimal(n / 10)[i]);
            }
        }
        assert(d[0] == decimal(n / 10)[0]);
        assert(d.last() == digit_char(n % 10));
        assert((digit_char(n % 10) as u32) == 48 + n % 10);
        assert(digits_value(d) == digits_value(decimal(n / 10)) * 10 + (n % 10));
        assert(n == (n / 10) * 10 + n % 10);
    }
}

/// A cursor reads back as the number it was written as: the decimal text of any `u64`,
/// with or without a leading `+`, parses to that number; text with anything but decimal
/// digits after the sign parses to nothing.
pub proof fn lemma_parse_u64_decimal(n: u64, s: Seq<char>)
    ensures
        parsed_u64(decimal(n as nat)) == Some(n),
        parsed_u64(seq!['+'] + decimal(n as nat)) == Some(n),
        (exists|i: int| 0 <= i < unsigned_part(s).len() && !is_digit(#[trigger] unsigned_part(s)[i]))
            ==> parsed_u64(s) is None,
{
    lemma_decimal_value(n as nat);
    assert((seq!['+'] + decimal(n as nat)).drop_first() =~= decimal(n as nat));
}

/// `value.parse::<u64>()`.
pub fn parse_u64(value: &str) -> (r: Option<u64>)
    ensures
        r == parsed_u64(value@),
{
    let v = chars_of(value);
    let start: usize = if v.len() > 0 && v[0] == '+' {
        1
    } else {
        0
    };
    let ghost d = unsigned_part(value@);
    assert(d =~= v@.skip(start as int));
    if start == v.len() {
        return None;
    }
    let mut i: usize = start;
    while i < v.len()
        invariant
            v@ == value@,
            start <= i <= v@.len(),
            d == v@.skip(start as int),
            d == unsigned_part(value@),
            forall|j: int| start <= j < i ==> is_digit(#[trigger] v@[j]),
        decreases v@.len() - i,
    {
        if !('0' <= v[i] && v[i] <= '9') {
            assert(d[i - start] == v@[i as int]);
            assert(!is_digit(d[i - start]));
            assert(!all_digits(d));
            return None;
        }
        i = i + 1;
    }
    assert(forall|j: int| 0 <= j < d.len() ==> is_digit(#[trigger] d[j]) && d[j] == v@[j + start]);
    let mut acc: u64 = 0;
    let mut k: usize = start;
    assert(d.take(0) =~= Seq::<char>::empty());
    while k < v.len()
        invariant
            v@ == value@,
            start <= k <= v@.len(),
            d == v@.skip(start as int),
            d == unsigned_part(value@),
            forall|j: int| 0 <= j < d.len() ==> is_digit(#[trigger] d[j]),
            acc == digits_value(d.take(k - start)),
        decreases v@.len() - k,
    {
        proof {
            lemma_digits_value_prefix(d, k - start);
            assert(d[k - start] == v@[k as int]);
        }
        let digit = (v[k] as u32) - ('0' as u32);
        if acc > 1844674407370955161u64 || (acc == 1844674407370955161u64 && digit > 5) {
            proof {
                lemma_digits_value_monotone(d, k - start + 1);
                assert(digits_value(d.take(k - start + 1)) == acc * 10 + digit);
                assert(acc * 10 + digit > u64::MAX);
                assert(digits_value(d) > u64::MAX);
            }
            return None;
        }
        acc = acc * 10 + digit as u64;
        k = k + 1;
    }
    assert(d.take(d.len() as int) =~= d);
    Some(acc)
}

/// Where a server sequence number falls relative to the cursor.
#[derive(Debug, Clone, Copy, PartialEq, Eq, Structural)]
pub enum SeqPosition {
    /// At or before the cursor: already accepted.
    Past,
    /// Exactly one after the cursor.
    Next,
    /// Further ahead: the operations in between are missing.
    Gap { expected: u64 },
}

/// The next sequence number the cursor expects (saturating at the top of the range).
pub open spec fn expected_after(cursor: u64) -> u64 {
    if cursor == u64::MAX {
        cursor
    } else {
        (cursor + 1) as u64
    }
}

pub open spec fn position_of(cursor: u64, seq: u64) -> SeqPosition {
    if seq <= cursor {
        SeqPosition::Past
    } else if seq == expected_after(cursor) {
        SeqPosition::Next
    } else {
        SeqPosition::Gap { expected: expected_after(cursor) }
    }
}

/// What accepting one sequenced operation comes to once its records are read.
#[derive(Debug, Clone, Copy, PartialEq, Eq, Structural)]
pub enum SeqStep {
    /// A replay of an operation at or before the cursor: nothing to do.
    Replay,
    /// The operation was applied before (as a local one) and now gets its number.
    Number,
    /// The operation is new here and is applied, then numbered.
    Apply,
}

/// The cursor of one batch of server-sequenced operations, accepted in order.
pub struct SequencedBatch {
    pub cursor: u64,
}

impl SequencedBatch {
    pub fn new(cursor: u64) -> (r: Self)
        ensures
            r.cursor == cursor,
    {
        SequencedBatch { cursor }
    }

    /// Where `seq` falls relative to the cursor.
    pub fn position(&self, seq: u64) -> (r: SeqPosition)
        ensures
            r == position_of(self.cursor, seq),
    {
        if seq <= self.cursor {
            SeqPosition::Past
        } else {
            let expected = if self.cursor == u64::MAX {
                self.cursor
            } else {
                self.cursor + 1
            };
            if seq == expected {
                SeqPosition::Next
            } else {
                SeqPosition::Gap { expected }
            }
        }
    }

    /// A number at or before the cursor is a replay, unless the number already belongs
    /// to another operation. `op_at_seq` is the operation recorded at `seq`, if any.
    pub fn accept_past(&self, seq: u64, op_id: u128, op_at_seq: Option<u128>) -> (r: Result<
        SeqStep,
        SyncError,
    >)
        requires
            seq <= self.cursor,
        ensures
            r == match op_at_seq {
                Some(other) => if other != op_id {
                    Err(SyncError::Conflict { seq })
                } else {
                    Ok(SeqStep::Replay)
                },
                None => Ok(SeqStep::Replay),
            },
    {
        match op_at_seq {
            Some(other) => if other != op_id {
                Err(SyncError::Conflict { seq })
            } else {
                Ok(SeqStep::Replay)
            },
            None => Ok(SeqStep::Replay),
        }
    }

    /// Accepts the next number. `existing` is what the operation's record says: absent,
    /// applied without a number, or applied with one. A different number is a conflict;
    /// otherwise the cursor moves to `seq`.
    pub fn accept_next(&mut self, seq: u64, existing: Option<Option<i64>>) -> (r: Result<
        SeqStep,
        SyncError,
    >)
        requires
            position_of(old(self).cursor, seq) == SeqPosition::Next,
        ensures
            r == match existing {
                Some(Some(s)) => if s as u64 != seq {
                    Err(SyncError::Conflict { seq })
                } else {
                    Ok(SeqStep::Number)
                },
                Some(None) => Ok(SeqStep::Number),
                None => Ok(SeqStep::Apply),
            },
            r is Ok ==> final(self).cursor == seq,
            r is Err ==> final(self).cursor == old(self).cursor,
    {
        match existing {
            Some(Some(s)) => {
                if s as u64 != seq {
                    return Err(SyncError::Conflict { seq });
                }
                self.cursor = seq;
                Ok(SeqStep::Number)
            },
            Some(None) => {
                self.cursor = seq;
                Ok(SeqStep::Number)
            },
            None => {
                self.cursor = seq;
                Ok(SeqStep::Apply)
            },
        }
    }
}

/// Whether configuring `server_url` (trimmed) forgets the workspace binding: it does
/// whenever the URL differs from the one configured before.
pub fn configure_clears_binding(previous: Option<&str>, server_url: &str) -> (r: bool)
    ensures
        r == match previous {
            Some(p) => p@ != trim(server_url@),
            None => true,
        },
{
    let url = trim_str(server_url);
    match previous {
        Some(p) => {
            let a = chars_of(p);
            let b = chars_of(url);
            assert(a@.subrange(0, a@.len() as int) =~= a@);
            !crate::text::range_eq(a.as_slice(), 0, a.len(), b.as_slice())
        },
        None => true,
    }
}

/// Binding the local workspace to a remote one is refused when the server changed in the
/// meantime or when the workspaces differ.
pub fn check_binding(configured_url: Option<&str>, server_url: &str, local: u128, remote: u128) -> (r:
    Result<(), SyncError>)
    ensures
        r == if !(configured_url is Some && configured_url->0@ == trim(server_url@)) {
            Err(SyncError::ServerChanged)
        } else if local != remote {
            Err(SyncError::WorkspaceMismatch { local, remote })
        } else {
            Ok(())
        },
{
    let url = trim_str(server_url);
    let same = match configured_url {
        Some(c) => {
            let a = chars_of(c);
            let b = chars_of(url);
            assert(a@.subrange(0, a@.len() as int) =~= a@);
            crate::text::range_eq(a.as_slice(), 0, a.len(), b.as_slice())
        },
        None => false,
    };
    if !same {
        return Err(SyncError::ServerChanged);
    }
    if local != remote {
        return Err(SyncError::WorkspaceMismatch { local, remote });
    }
    Ok(())
}

/// The stored sync cursor: zero when none is stored.
pub fn cursor_from_stored(value: Option<&str>) -> (r: Result<u64, SyncError>)
    ensures
        r == match value {
            None => Ok(0u64),
            Some(v) => match parsed_u64(v@) {
                Some(n) => Ok(n),
                None => Err(SyncError::Unreadable),
            },
        },
{
    match value {
        None => Ok(0),
        Some(v) => match parse_u64(v) {
            Some(n) => Ok(n),
            None => Err(SyncError::Unreadable),
        },
    }
}

/// A sequence number once accepted stays accepted: after the cursor moves to the next
/// number, that number and every earlier one are replays, and the number after it is next.
pub proof fn lemma_accepted_stays_past(cursor: u64, seq: u64, earlier: u64)
    requires
        position_of(cursor, seq) == SeqPosition::Next,
        earlier <= seq,
    ensures
        position_of(seq, earlier) == SeqPosition::Past,
        seq < u64::MAX ==> position_of(seq, (seq + 1) as u64) == SeqPosition::Next,
{
}

/// The cursor after a batch numbered `seqs` is accepted in order from `cursor`: a replay
/// leaves it, the next number moves it there, and a gap refuses the batch.
pub open spec fn cursor_after(cursor: u64, seqs: Seq<u64>) -> Option<u64>
    decreases seqs.len(),
{
    if seqs.len() == 0 {
        Some(cursor)
    } else {
        match position_of(cursor, seqs[0]) {
            SeqPosition::Past => cursor_after(cursor, seqs.drop_first()),
            SeqPosition::Next => cursor_after(seqs[0], seqs.drop_first()),
            SeqPosition::Gap { .. } => None,
        }
    }
}

proof fn lemma_cursor_after_covers(cursor: u64, seqs: Seq<u64>)
    requires
        cursor_after(cursor, seqs) is Some,
    ensures
        cursor <= cursor_after(cursor, seqs)->0,
        forall|i: int| 0 <= i < seqs.len() ==> #[trigger] seqs[i] <= cursor_after(cursor, seqs)->0,
    decreases seqs.len(),
{
    if seqs.len() > 0 {
        let rest = seqs.drop_first();
        let next = match position_of(cursor, seqs[0]) {
            SeqPosition::Next => seqs[0],
            _ => cursor,
        };
        lemma_cursor_after_covers(next, rest);
        assert forall|i: int| 0 <= i < seqs.len() implies #[trigger] seqs[i] <= cursor_after(
            cursor,
            seqs,
        )->0 by {
            if i > 0 {
                assert(seqs[i] == rest[i - 1]);
            }
        }
    }
}

proof fn lemma_replay_keeps_cursor(cursor: u64, seqs: Seq<u64>)
    requires
        forall|i: int| 0 <= i < seqs.len() ==> #[trigger] seqs[i] <= cursor,
    ensures
        cursor_after(cursor, seqs) == Some(cursor),
    decreases seqs.len(),
{
    if seqs.len() > 0 {
        let rest = seqs.drop_first();
        assert forall|i: int| 0 <= i < rest.len() implies #[trigger] rest[i] <= cursor by {
            assert(rest[i] == seqs[i + 1]);
        }
        lemma_replay_keeps_cursor(cursor, rest);
    }
}

/// A batch delivered again after it was accepted is all replays: every number in it is at
/// or before the cursor it left, and accepting it again leaves that cursor where it is.
pub proof fn lemma_batch_replay_is_idempotent(cursor: u64, seqs: Seq<u64>)
    requires
        cursor_after(cursor, seqs) is Some,
    ensures
        forall|i: int|
            0 <= i < seqs.len() ==> position_of(cursor_after(cursor, seqs)->0, #[trigger] seqs[i])
                == SeqPosition::Past,
        cursor_after(cursor_after(cursor, seqs)->0, seqs) == cursor_after(cursor, seqs),
{
    lemma_cursor_after_covers(cursor, seqs);
    lemma_replay_keeps_cursor(cursor_after(cursor, seqs)->0, seqs);
}

/// What the replica records while it accepts server-sequenced operations: its cursor,
/// the server number (if any) of each operation it applied, the operation each number was
/// given to, and the operations still queued for the server.
pub type SeqLedger = (u64, Map<u128, Option<u64>>, Map<u64, u128>, Set<u128>);

/// Accepting operation `op` numbered `seq`, as `SequencedBatch` decides it: a number at
/// or before the cursor is a replay unless another operation holds it; the next number is
/// applied (or only numbered, if the operation was applied before) unless the operation
/// holds another number, and moves the cursor; a gap is refused.
pub open spec fn sequenced_step(l: SeqLedger, seq: u64, op: u128) -> Result<(SeqLedger, SeqStep), SyncError> {
    match position_of(l.0, seq) {
        SeqPosition::Past => if l.2.contains_key(seq) && l.2[seq] != op {
            Err(SyncError::Conflict { seq })
        } else {
            Ok((l, SeqStep::Replay))
        },
        SeqPosition::Gap { expected } => Err(SyncError::SequenceGap { expected, got: seq }),
        SeqPosition::Next => if l.1.contains_key(op) && l.1[op] is Some && l.1[op]->0 != seq {
            Err(SyncError::Conflict { seq })
        } else {
            let step = if l.1.contains_key(op) {
                SeqStep::Number
            } else {
                SeqStep::Apply
            };
            Ok(((seq, l.1.insert(op, Some(seq)), l.2.insert(seq, op), l.3.remove(op)), step))
        },
    }
}

/// Accepting a batch of (number, operation) pairs in order; the first refusal refuses it.
pub open spec fn sequenced_run(l: SeqLedger, ops: Seq<(u64, u128)>) -> Result<
    (SeqLedger, Seq<SeqStep>),
    SyncError,
>
    decreases ops.len(),
{
    if ops.len() == 0 {
        Ok((l, Seq::empty()))
    } else {
        match sequenced_step(l, ops[0].0, ops[0].1) {
            Err(e) => Err(e),
            Ok((l1, step)) => match sequenced_run(l1, ops.drop_first()) {
                Err(e) => Err(e),
                Ok((l2, steps)) => Ok((l2, seq![step] + steps)),
            },
        }
    }
}

/// Every number after `base` up to the cursor is held by an operation that records it and
/// is no longer queued.
pub open spec fn numbered_since(base: u64, l: SeqLedger) -> bool {
    &&& base <= l.0
    &&& forall|k: u64|
        base < k <= l.0 ==> #[trigger] l.2.contains_key(k) && l.1.contains_key(l.2[k]) && l.1[l.2[k]]
            == Some(k) && !l.3.contains(l.2[k])
}

#[verifier::spinoff_prover]
#[verifier::rlimit(60)]
proof fn lemma_sequenced_run(base: u64, l: SeqLedger, ops: Seq<(u64, u128)>)
    requires
        numbered_since(base, l),
        sequenced_run(l, ops) is Ok,
    ensures
        ({
            let (l2, steps) = sequenced_run(l, ops)->Ok_0;
            &&& numbered_since(base, l2)
            &&& steps.len() == ops.len()
            &&& l.0 <= l2.0
            &&& (l2.0 == l.0 || exists|i: int| 0 <= i < ops.len() && (#[trigger] ops[i]).0 == l2.0)
            &&& forall|k: u64|
                #![trigger l2.2.contains_key(k)]
                k <= l.0 ==> (l2.2.contains_key(k) == l.2.contains_key(k) && (l.2.contains_key(k)
                    ==> l2.2[k] == l.2[k]))
            &&& forall|x: u128| #[trigger] l.1.contains_key(x) ==> l2.1.contains_key(x)
            &&& forall|i: int|
                0 <= i < ops.len() ==> (#[trigger] ops[i]).0 <= l2.0 && (l2.2.contains_key(ops[i].0)
                    ==> l2.2[ops[i].0] == ops[i].1)
            &&& forall|i: int| 0 <= i < ops.len() && (#[trigger] ops[i]).0 > base ==> l2.2.contains_key(
                ops[i].0,
            )
            &&& forall|i: int|
                0 <= i < ops.len() && #[trigger] steps[i] == SeqStep::Apply ==> ops[i].0 > l.0
                    && !l.1.contains_key(ops[i].1)
            &&& forall|i: int| 0 <= i < ops.len() && (#[trigger] ops[i]).0 <= l.0 ==> steps[i]
                == SeqStep::Replay
        }),
    decreases ops.len(),
{
    if ops.len() > 0 {
        let (seq, op) = ops[0];
        let (l1, step) = sequenced_step(l, seq, op)->Ok_0;
        let rest = ops.drop_first();
        if position_of(l.0, seq) == SeqPosition::Next {
            assert forall|k: u64| base < k <= l1.0 implies #[trigger] l1.2.contains_key(k)
                && l1.1.contains_key(l1.2[k]) && l1.1[l1.2[k]] == Some(k) && !l1.3.contains(
                l1.2[k],
            ) by {
                if k != seq {
                    assert(l.2.contains_key(k));
                    assert(l.2[k] != op);
                }
            }
        }
        assert(numbered_since(base, l1));
        lemma_sequenced_run(base, l1, rest);
        let (l2, steps) = sequenced_run(l1, rest)->Ok_0;
        let all = sequenced_run(l, ops)->Ok_0.1;
        assert(all == seq![step] + steps);
        assert forall|i: int| 0 <= i < ops.len() implies (#[trigger] ops[i]).0 <= l2.0 && (
        l2.2.contains_key(ops[i].0) ==> l2.2[ops[i].0] == ops[i].1) by {
            if i > 0 {
                assert(ops[i] == rest[i - 1]);
            }
        }
        assert forall|i: int| 0 <= i < ops.len() && (#[trigger] ops[i]).0 > base implies l2.2.contains_key(
            ops[i].0,
        ) by {
            if i > 0 {
                assert(ops[i] == rest[i - 1]);
            }
        }
        assert forall|i: int|
            0 <= i < ops.len() && #[trigger] all[i] == SeqStep::Apply implies ops[i].0 > l.0
                && !l.1.contains_key(ops[i].1) by {
            if i > 0 {
                assert(ops[i] == rest[i - 1]);
                assert(all[i] == steps[i - 1]);
            }
        }
        assert forall|i: int| 0 <= i < ops.len() && (#[trigger] ops[i]).0 <= l.0 implies all[i]
            == SeqStep::Replay by {
            if i > 0 {
                assert(ops[i] == rest[i - 1]);
                assert(all[i] == steps[i - 1]);
            }
        }
        if l2.0 != l.0 && l2.0 != l1.0 {
            let j = choose|j: int| 0 <= j < rest.len() && (#[trigger] rest[j]).0 == l2.0;
            assert(ops[j + 1] == rest[j]);
        }
        if l2.0 != l.0 && l2.0 == l1.0 {
            assert(l1.0 == seq);
            assert(ops[0].0 == l2.0);
        }
        assert forall|k: u64|
            #![trigger l2.2.contains_key(k)]
            k <= l.0 implies (l2.2.contains_key(k) == l.2.contains_key(k) && (l.2.contains_key(k)
                ==> l2.2[k] == l.2[k])) by {
            assert(k <= l1.0);
            if position_of(l.0, seq) == SeqPosition::Next {
                assert(k != seq);
                assert(l1.2 == l.2.insert(seq, op));
            } else {
                assert(l1 == l);
            }
            assert(l1.2.contains_key(k) == l.2.contains_key(k));
            assert(l2.2.contains_key(k) == l1.2.contains_key(k));
            if l.2.contains_key(k) {
                assert(l1.2[k] == l.2[k]);
                assert(l2.2[k] == l1.2[k]);
            }
        }
        assert forall|x: u128| #[trigger] l.1.contains_key(x) implies l2.1.contains_key(x) by {
            assert(l1.1.contains_key(x));
        }
        assert(all.len() == ops.len());
        assert(l.0 <= l1.0 && l1.0 <= l2.0);
        assert(numbered_since(base, l2));
    } else {
        assert(sequenced_run(l, ops)->Ok_0.1 =~= Seq::<SeqStep>::empty());
    }
}

proof fn lemma_sequenced_replay(l: SeqLedger, ops: Seq<(u64, u128)>)
    requires
        forall|i: int|
            0 <= i < ops.len() ==> (#[trigger] ops[i]).0 <= l.0 && (l.2.contains_key(ops[i].0)
                ==> l.2[ops[i].0] == ops[i].1),
    ensures
        sequenced_run(l, ops) == Ok::<(SeqLedger, Seq<SeqStep>), SyncError>(
            (l, Seq::new(ops.len(), |i: int| SeqStep::Replay)),
        ),
    decreases ops.len(),
{
    if ops.len() > 0 {
        let rest = ops.drop_first();
        assert forall|i: int| 0 <= i < rest.len() implies (#[trigger] rest[i]).0 <= l.0 && (
        l.2.contains_key(rest[i].0) ==> l.2[rest[i].0] == rest[i].1) by {
            assert(rest[i] == ops[i + 1]);
        }
        assert(ops[0].0 <= l.0);
        lemma_sequenced_replay(l, rest);
        assert(sequenced_step(l, ops[0].0, ops[0].1) == Ok::<(SeqLedger, SeqStep), SyncError>(
            (l, SeqStep::Replay),
        ));
        assert(seq![SeqStep::Replay] + Seq::new(rest.len(), |i: int| SeqStep::Replay) =~= Seq::new(
            ops.len(),
            |i: int| SeqStep::Replay,
        ));
    } else {
        assert(Seq::new(0, |i: int| SeqStep::Replay) =~= Seq::<SeqStep>::empty());
    }
}

/// A sequenced batch that is accepted gives one step per operation; the cursor moves to
/// the largest number at or after it; every operation numbered after the old cursor is
/// recorded with its number and no longer queued; only an operation numbered after the
/// old cursor and not applied before is applied, and one at or before it is a replay.
/// Delivered again, the same batch is all replays and changes nothing.
pub proof fn lemma_sequenced_batch(l: SeqLedger, ops: Seq<(u64, u128)>)
    requires
        sequenced_run(l, ops) is Ok,
    ensures
        ({
            let (l2, steps) = sequenced_run(l, ops)->Ok_0;
            &&& steps.len() == ops.len()
            &&& l.0 <= l2.0
            &&& forall|i: int| 0 <= i < ops.len() ==> (#[trigger] ops[i]).0 <= l2.0
            &&& (l2.0 == l.0 || exists|i: int| 0 <= i < ops.len() && (#[trigger] ops[i]).0 == l2.0)
            &&& forall|i: int|
                0 <= i < ops.len() && (#[trigger] ops[i]).0 > l.0 ==> l2.1.contains_key(ops[i].1)
                    && l2.1[ops[i].1] == Some(ops[i].0) && !l2.3.contains(ops[i].1)
            &&& forall|i: int|
                0 <= i < ops.len() && #[trigger] steps[i] == SeqStep::Apply ==> ops[i].0 > l.0
                    && !l.1.contains_key(ops[i].1)
            &&& forall|i: int| 0 <= i < ops.len() && (#[trigger] ops[i]).0 <= l.0 ==> steps[i]
                == SeqStep::Replay
            &&& sequenced_run(l2, ops) == Ok::<(SeqLedger, Seq<SeqStep>), SyncError>(
                (l2, Seq::new(ops.len(), |i: int| SeqStep::Replay)),
            )
        }),
{
    assert(numbered_since(l.0, l));
    lemma_sequenced_run(l.0, l, ops);
    let (l2, steps) = sequenced_run(l, ops)->Ok_0;
    assert forall|i: int|
        0 <= i < ops.len() && (#[trigger] ops[i]).0 > l.0 implies l2.1.contains_key(ops[i].1)
            && l2.1[ops[i].1] == Some(ops[i].0) && !l2.3.contains(ops[i].1) by {
        assert(l2.2.contains_key(ops[i].0));
    }
    lemma_sequenced_replay(l2, ops);
}

} // verus!