//! A payload decoder that keeps no buffer: it takes one byte at a time and
//! accumulates the delta as it goes.
use vstd::prelude::*;
use crate::bytes::{le_value, le_value_u64, pow256};
use crate::decoder::{lemma_parse_concat, range_id};
use crate::frame::{
    complete_len, frame_len, has_frame, head_event, malformed_head, parse_frames, stream_malformed,
    TracingEvent,
};
use crate::decoder::MalformedFrame;

verus! {

/// Where the machine stands inside the current frame. Deltas are accumulated
/// least significant byte first: `acc` is the value so far and `mult` the
/// weight of the next byte (0 once eight bytes were read); `left` counts the
/// delta bytes still to come.
#[derive(Clone, Copy, Debug, PartialEq, Eq, Structural)]
pub enum ParsingStateMachine {
    NewFrame,
    DifPrLen(u8),
    DifTm(u8, u64, u64, u8),
    RangeOrdId(Option<u8>, u8),
    RangeTm(Option<u8>, u8, u64, u64, u8),
    /// A frame head announced a delta longer than eight bytes; nothing more is read.
    Malformed,
}

/// `mult` is the weight of the delta byte after `k` of them.
pub open spec fn weight_ok(mult: u64, k: int) -> bool {
    if k < 8 {
        mult as int == pow256(k as nat)
    } else {
        mult == 0
    }
}

/// The machine is in the state reached after the bytes `p` of a frame.
pub open spec fn machine_matches(st: ParsingStateMachine, p: Seq<u8>) -> bool {
    match st {
        ParsingStateMachine::NewFrame => p.len() == 0,
        ParsingStateMachine::DifPrLen(id) => p.len() == 1 && p[0] == id,
        ParsingStateMachine::DifTm(id, acc, mult, left) => {
            &&& p.len() >= 2
            &&& p[0] == id
            &&& p[1] < 128
            &&& left >= 1
            &&& p.len() - 2 + left == p[1] % 16
            &&& p[1] % 16 <= 8
            &&& acc == le_value_u64(p.skip(2))
            &&& weight_ok(mult, p.len() - 2)
        },
        ParsingStateMachine::RangeOrdId(mid, n) => p.len() == 2 && p[1] >= 128 && n == p[1] % 16
            && n <= 8 && mid == range_id(p[0], p[1]),
        ParsingStateMachine::RangeTm(mid, ord, acc, mult, left) => {
            &&& p.len() >= 3
            &&& p[1] >= 128
            &&& left >= 1
            &&& p.len() - 3 + left == p[1] % 16
            &&& p[1] % 16 <= 8
            &&& mid == range_id(p[0], p[1])
            &&& ord == p[2]
            &&& acc == le_value_u64(p.skip(3))
            &&& weight_ok(mult, p.len() - 3)
        },
        ParsingStateMachine::Malformed => malformed_head(p),
    }
}

pub proof fn lemma_le_value_push(s: Seq<u8>, b: u8)
    ensures
        le_value(s.push(b)) == le_value(s) + b * pow256(s.len()),
    decreases s.len(),
{
    let t = s.push(b);
    if s.len() == 0 {
        assert(t.drop_first() =~= Seq::<u8>::empty());
        assert(le_value(t.drop_first()) == 0);
        assert(t[0] == b);
        assert(le_value(t) == b + 256 * le_value(t.drop_first()));
        assert(pow256(0) == 1);
    } else {
        lemma_le_value_push(s.drop_first(), b);
        assert(t.drop_first() =~= s.drop_first().push(b));
        assert(t[0] == s[0]);
        assert(le_value(t) == t[0] + 256 * le_value(t.drop_first()));
        assert(le_value(s) == s[0] + 256 * le_value(s.drop_first()));
        assert(256 * (le_value(s.drop_first()) + b * pow256(s.drop_first().len())) == 256 * le_value(
            s.drop_first(),
        ) + b * pow256(s.len())) by (nonlinear_arith)
            requires
                pow256(s.len()) == 256 * pow256(s.drop_first().len()),
        ;
    }
}

proof fn lemma_pow256_split(k: nat)
    requires
        k >= 8,
    ensures
        pow256(k) == 0x1_0000_0000_0000_0000 * pow256((k - 8) as nat),
    decreases k,
{
    if k == 8 {
        crate::bytes::lemma_pow256_8();
        reveal_with_fuel(pow256, 2);
    } else {
        lemma_pow256_split((k - 1) as nat);
        assert(pow256(k) == 256 * pow256((k - 1) as nat));
        assert(pow256((k - 8) as nat) == 256 * pow256((k - 9) as nat));
        assert(256 * (0x1_0000_0000_0000_0000 * pow256((k - 9) as nat)) == 0x1_0000_0000_0000_0000 * (256
            * pow256((k - 9) as nat))) by (nonlinear_arith);
    }
}

/// Adding delta byte `b` after the bytes `s` (with weight `mult`) to `acc`.
proof fn lemma_acc_step(s: Seq<u8>, b: u8, acc: u64, mult: u64)
    requires
        acc == le_value_u64(s),
        weight_ok(mult, s.len() as int),
    ensures
        s.len() < 8 ==> acc as int + b as int * mult as int <= u64::MAX,
        s.len() < 8 ==> le_value_u64(s.push(b)) == acc + b * mult,
        s.len() >= 8 ==> le_value_u64(s.push(b)) == acc,
        weight_ok(
            if mult == 0 || mult == 0x100_0000_0000_0000 {
                0u64
            } else {
                (mult * 256) as u64
            },
            s.len() + 1 as int,
        ),
{
    lemma_le_value_push(s, b);
    crate::bytes::lemma_pow256_8();
    if s.len() < 8 {
        crate::bytes::lemma_le_value_bound(s);
        crate::bytes::lemma_pow256_mono(s.len() + 1, 8);
        vstd::arithmetic::div_mod::lemma_small_mod(le_value(s), 0x1_0000_0000_0000_0000);
        assert(le_value(s) + b * pow256(s.len()) < pow256(s.len() + 1)) by (nonlinear_arith)
            requires
                le_value(s) < pow256(s.len()),
                b <= 255,
                pow256(s.len() + 1) == 256 * pow256(s.len()),
        ;
        vstd::arithmetic::div_mod::lemma_small_mod(
            (le_value(s) + b * pow256(s.len())) as nat,
            0x1_0000_0000_0000_0000,
        );
        if s.len() == 7 {
            reveal_with_fuel(pow256, 8);
        } else {
            crate::bytes::lemma_pow256_mono(s.len() + 1, 7);
            reveal_with_fuel(pow256, 8);
        }
    } else {
        lemma_pow256_split(s.len());
        vstd::arithmetic::div_mod::lemma_mod_multiples_vanish(
            (b * pow256((s.len() - 8) as nat)) as int,
            le_value(s) as int,
            0x1_0000_0000_0000_0000,
        );
        assert(b * pow256(s.len()) == 0x1_0000_0000_0000_0000 * (b * pow256((s.len() - 8) as nat))) by (nonlinear_arith)
            requires
                pow256(s.len()) == 0x1_0000_0000_0000_0000 * pow256((s.len() - 8) as nat),
        ;
    }
}

/// A state reached inside a frame never holds a whole frame yet.
proof fn lemma_matches_partial(st: ParsingStateMachine, p: Seq<u8>)
    requires
        machine_matches(st, p),
    ensures
        !has_frame(p),
{
}

/// The accumulated delta after one more byte `b` of weight `mult`.
fn add_byte(acc: u64, b: u8, mult: u64) -> (r: (u64, u64))
    ensures
        r.0 == vstd::wrapping::u64_specs::wrapping_add(acc, vstd::wrapping::u64_specs::wrapping_mul(b as u64, mult)),
        r.1 == if mult == 0 || mult == 0x100_0000_0000_0000 {
            0u64
        } else {
            vstd::wrapping::u64_specs::wrapping_mul(mult, 256)
        },
{
    let new_acc = acc.wrapping_add((b as u64).wrapping_mul(mult));
    let new_mult = if mult == 0 || mult == 0x100_0000_0000_0000 {
        0
    } else {
        mult.wrapping_mul(256)
    };
    (new_acc, new_mult)
}

/// One delta byte taken in a state reached after `p` (whose delta bytes start at `off`).
proof fn lemma_delta_byte(p: Seq<u8>, off: int, b: u8, acc: u64, mult: u64)
    requires
        0 <= off <= p.len(),
        acc == le_value_u64(p.skip(off)),
        weight_ok(mult, p.len() - off),
    ensures
        le_value_u64(p.push(b).skip(off)) == vstd::wrapping::u64_specs::wrapping_add(acc, vstd::wrapping::u64_specs::wrapping_mul(b as u64, mult)),
        weight_ok(
            if mult == 0 || mult == 0x100_0000_0000_0000 {
                0u64
            } else {
                vstd::wrapping::u64_specs::wrapping_mul(mult, 256)
            },
            p.len() - off + 1,
        ),
{
    let s = p.skip(off);
    assert(p.push(b).skip(off) =~= s.push(b));
    lemma_acc_step(s, b, acc, mult);
    crate::bytes::lemma_pow256_8();
    if s.len() < 8 {
        assert(b as int * mult as int <= u64::MAX);
        assert(vstd::wrapping::u64_specs::wrapping_mul(b as u64, mult) == b * mult);
        if mult != 0 && mult != 0x100_0000_0000_0000 {
            assert(s.len() < 7) by {
                if s.len() == 7 {
                    reveal_with_fuel(pow256, 8);
                }
            }
            crate::bytes::lemma_pow256_mono(s.len() + 1, 7);
            reveal_with_fuel(pow256, 8);
            assert(mult * 256 <= u64::MAX);
        }
    } else {
        assert(mult == 0);
        assert(vstd::wrapping::u64_specs::wrapping_mul(b as u64, 0) == 0);
    }
}

impl ParsingStateMachine {
    /// Takes byte `b`. If it completes a frame, returns the frame's event and
    /// goes back to `NewFrame`; otherwise it remembers the byte.
    pub fn next_byte(&mut self, b: u8) -> (r: Option<TracingEvent>)
        ensures
            forall|p: Seq<u8>|
                #[trigger] machine_matches(*old(self), p) ==> {
                    let q = p.push(b);
                    if has_frame(q) {
                        &&& frame_len(q) == q.len()
                        &&& r == Some(head_event(q))
                        &&& *final(self) == ParsingStateMachine::NewFrame
                    } else {
                        r is None && machine_matches(*final(self), q)
                    }
                },
    {
        let ghost st = *self;
        proof {
            crate::frame::lemma_flag_bits(b);
        }
        match *self {
            ParsingStateMachine::NewFrame => {
                *self = ParsingStateMachine::DifPrLen(b);
                None
            },
            ParsingStateMachine::DifPrLen(ev) => {
                let is_range_event = b & 0b1000_0000 != 0;
                let is_unnamed_range_end = b & 0b0100_0000 != 0;
                let dif_tm_len = b & 0b0000_1111;
                if dif_tm_len > 8 {
                    *self = ParsingStateMachine::Malformed;
                    return None;
                }
                if is_range_event {
                    if is_unnamed_range_end {
                        *self = ParsingStateMachine::RangeOrdId(None, dif_tm_len);
                    } else {
                        *self = ParsingStateMachine::RangeOrdId(Some(ev), dif_tm_len);
                    }
                    return None;
                }
                if dif_tm_len == 0 {
                    *self = ParsingStateMachine::NewFrame;
                    let e = TracingEvent::Instant(ev, 0);
                    proof {
                        assert forall|p: Seq<u8>| #[trigger] machine_matches(st, p) implies head_event(p.push(b)) == e by {
                            let q = p.push(b);
                            assert(q.subrange(2, 2) =~= Seq::<u8>::empty());
                        }
                    }
                    return Some(e);
                }
                *self = ParsingStateMachine::DifTm(ev, 0, 1, dif_tm_len);
                proof {
                    assert forall|p: Seq<u8>| #[trigger] machine_matches(st, p) implies machine_matches(*self, p.push(b)) by {
                        let q = p.push(b);
                        assert(q.skip(2) =~= Seq::<u8>::empty());
                        reveal_with_fuel(pow256, 1);
                    }
                }
                None
            },
            ParsingStateMachine::DifTm(ev, acc, mult, left) => {
                let (new_acc, new_mult) = add_byte(acc, b, mult);
                proof {
                    assert forall|p: Seq<u8>| #[trigger] machine_matches(st, p) implies le_value_u64(p.push(b).skip(2)) == new_acc && weight_ok(new_mult, p.len() - 1) by {
                        lemma_delta_byte(p, 2, b, acc, mult);
                    }
                }
                if left <= 1 {
                    *self = ParsingStateMachine::NewFrame;
                    let e = TracingEvent::Instant(ev, new_acc);
                    proof {
                        assert forall|p: Seq<u8>| #[trigger] machine_matches(st, p) implies head_event(p.push(b)) == e by {
                            let q = p.push(b);
                            assert(q.subrange(2, 2 + q[1] % 16) =~= q.skip(2));
                        }
                    }
                    Some(e)
                } else {
                    *self = ParsingStateMachine::DifTm(ev, new_acc, new_mult, left - 1);
                    None
                }
            },
            ParsingStateMachine::RangeOrdId(ev, dif_tm_len) => {
                let ord_id = b;
                if dif_tm_len == 0 {
                    *self = ParsingStateMachine::NewFrame;
                    let e = match ev {
                        Some(id) => TracingEvent::RangePart(id, 0, ord_id),
                        None => TracingEvent::UnnamedRangeEnd(0, ord_id),
                    };
                    proof {
                        assert forall|p: Seq<u8>| #[trigger] machine_matches(st, p) implies head_event(p.push(b)) == e by {
                            let q = p.push(b);
                            assert(q.subrange(3, 3) =~= Seq::<u8>::empty());
                        }
                    }
                    Some(e)
                } else {
                    *self = ParsingStateMachine::RangeTm(ev, ord_id, 0, 1, dif_tm_len);
                    proof {
                        assert forall|p: Seq<u8>| #[trigger] machine_matches(st, p) implies machine_matches(*self, p.push(b)) by {
                            let q = p.push(b);
                            assert(q.skip(3) =~= Seq::<u8>::empty());
                            reveal_with_fuel(pow256, 1);
                        }
                    }
                    None
                }
            },
            ParsingStateMachine::Malformed => None,
            ParsingStateMachine::RangeTm(ev_id, ord_id, acc, mult, left) => {
                let (new_acc, new_mult) = add_byte(acc, b, mult);
                proof {
                    assert forall|p: Seq<u8>| #[trigger] machine_matches(st, p) implies le_value_u64(p.push(b).skip(3)) == new_acc && weight_ok(new_mult, p.len() - 2) by {
                        lemma_delta_byte(p, 3, b, acc, mult);
                    }
                }
                if left <= 1 {
                    *self = ParsingStateMachine::NewFrame;
                    let e = match ev_id {
                        Some(id) => TracingEvent::RangePart(id, new_acc, ord_id),
                        None => TracingEvent::UnnamedRangeEnd(new_acc, ord_id),
                    };
                    proof {
                        assert forall|p: Seq<u8>| #[trigger] machine_matches(st, p) implies head_event(p.push(b)) == e by {
                            let q = p.push(b);
                            assert(q.subrange(3, 3 + q[1] % 16) =~= q.skip(3));
                        }
                    }
                    Some(e)
                } else {
                    *self = ParsingStateMachine::RangeTm(ev_id, ord_id, new_acc, new_mult, left - 1);
                    None
                }
            },
        }
    }

    /// Takes every byte of `bytes` and returns the events of the frames they
    /// complete. From `NewFrame`, these are exactly the events of the whole
    /// frames of `bytes`, and the machine is back at `NewFrame` exactly when
    /// `bytes` ends between frames; a malformed frame head gives
    /// `Err(MalformedFrame)`.
    pub fn parse_many(&mut self, bytes: &[u8]) -> (r: Result<Vec<TracingEvent>, MalformedFrame>)
        requires
            *old(self) == ParsingStateMachine::NewFrame,
        ensures
            r is Err <==> stream_malformed(bytes@),
            r is Err <==> *final(self) == ParsingStateMachine::Malformed,
            r is Ok ==> r->Ok_0@ == parse_frames(bytes@),
            r is Ok ==> ((*final(self) == ParsingStateMachine::NewFrame) == (complete_len(bytes@)
                == bytes@.len())),
    {
        let mut out: Vec<TracingEvent> = Vec::new();
        let mut i: usize = 0;
        let ghost mut done: Seq<u8> = Seq::empty();
        let ghost mut pend: Seq<u8> = Seq::empty();
        proof {
            assert(parse_frames(Seq::<u8>::empty()) =~= Seq::<TracingEvent>::empty());
        }
        while i < bytes.len()
            invariant
                i <= bytes@.len(),
                bytes@.take(i as int) == done.add(pend),
                complete_len(done) == done.len(),
                parse_frames(done) == out@,
                machine_matches(*self, pend),
            decreases bytes@.len() - i,
        {
            let b = bytes[i];
            let ghost st = *self;
            let r = self.next_byte(b);
            proof {
                assert(bytes@.take(i + 1) =~= bytes@.take(i as int).push(b));
                assert(machine_matches(st, pend));
            }
            match r {
                Some(e) => {
                    proof {
                        let f = pend.push(b);
                        crate::decoder::lemma_single_frame(f);
                        lemma_parse_concat(done, f);
                        assert(parse_frames(done).add(seq![e]) =~= parse_frames(done).push(e));
                        assert(done.add(pend).push(b) =~= done.add(f));
                        done = done.add(f);
                        pend = Seq::empty();
                    }
                    out.push(e);
                },
                None => {
                    proof {
                        assert(done.add(pend).push(b) =~= done.add(pend.push(b)));
                        pend = pend.push(b);
                    }
                },
            }
            i = i + 1;
        }
        proof {
            assert(bytes@.take(bytes@.len() as int) =~= bytes@);
            lemma_matches_partial(*self, pend);
            lemma_parse_concat(done, pend);
            assert(parse_frames(pend) =~= Seq::<TracingEvent>::empty());
            assert(parse_frames(done).add(parse_frames(pend)) =~= parse_frames(done));
            if complete_len(bytes@) == bytes@.len() {
                assert(pend.len() == 0);
            }
            if *self == ParsingStateMachine::NewFrame {
                assert(pend =~= Seq::<u8>::empty());
                assert(bytes@ =~= done);
            }
            assert(stream_malformed(bytes@) == malformed_head(pend));
        }
        if *self == ParsingStateMachine::Malformed {
            return Err(MalformedFrame);
        }
        Ok(out)
    }
}

} // verus!
