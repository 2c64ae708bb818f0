//! Operation identifiers and their canonical text.
//!
//! An identifier pairs a counter drawn by the issuing manager — which makes
//! it unique among live operations — with caller-supplied entropy — which
//! makes it unguessable. On the wire it travels as an opaque string of 32
//! lowercase hexadecimal digits; rendering and parsing are verified inverses
//! of each other.

use vstd::prelude::*;

verus! {

/// An operation identifier: unique among live operations through its counter
/// part, unguessable through its entropy part.
#[derive(Clone, Copy, Debug, PartialEq, Eq, Hash, Structural)]
pub struct OperationId {
    /// The issuing manager's allocation counter.
    pub nonce: u64,
    /// Entropy supplied with the broadcast request.
    pub token: u64,
}

/// The error of a stop request that names no live operation.
#[derive(Clone, Copy, Debug, PartialEq, Eq, Structural)]
pub struct InvalidOperationId;

/// A lowercase hexadecimal digit, as a byte.
pub open spec fn is_lower_hex(b: u8) -> bool {
    (0x30 <= b && b <= 0x39) || (0x61 <= b && b <= 0x66)
}

/// The lowercase digit of a nibble.
pub open spec fn hex_digit_of(v: u8) -> u8
    recommends
        v < 16,
{
    if v < 10 {
        (0x30 + v) as u8
    } else {
        (0x57 + v) as u8
    }
}

/// The `n` low nibbles of `v` as lowercase digits, most significant first.
pub open spec fn nibbles(v: nat, n: nat) -> Seq<u8>
    decreases n,
{
    if n == 0 {
        Seq::<u8>::empty()
    } else {
        nibbles(v / 16, (n - 1) as nat).push(hex_digit_of((v % 16) as u8))
    }
}

/// Sixteen to the `n`.
pub open spec fn pow16(n: nat) -> nat
    decreases n,
{
    if n == 0 {
        1
    } else {
        16 * pow16((n - 1) as nat)
    }
}

/// The canonical text of an identifier, as bytes: sixteen lowercase hex
/// digits of the entropy part, then sixteen of the counter part.
pub open spec fn id_text(id: OperationId) -> Seq<u8> {
    nibbles(id.token as nat, 16) + nibbles(id.nonce as nat, 16)
}

proof fn lemma_nibbles_len(v: nat, n: nat)
    ensures
        nibbles(v, n).len() == n,
    decreases n,
{
    if n > 0 {
        lemma_nibbles_len(v / 16, (n - 1) as nat);
    }
}

proof fn lemma_nibbles_digits(v: nat, n: nat)
    ensures
        forall|k: int| 0 <= k < nibbles(v, n).len() ==> is_lower_hex(#[trigger] nibbles(v, n)[k]),
    decreases n,
{
    if n > 0 {
        lemma_nibbles_digits(v / 16, (n - 1) as nat);
        lemma_nibbles_len(v / 16, (n - 1) as nat);
    }
}

proof fn lemma_pow16_mono(a: nat, b: nat)
    requires
        a <= b,
    ensures
        pow16(a) <= pow16(b),
    decreases b,
{
    if a < b {
        lemma_pow16_mono(a, (b - 1) as nat);
    }
}

/// A value below `pow16(n)` is determined by its `n` nibbles.
proof fn lemma_nibbles_injective(v: nat, w: nat, n: nat)
    requires
        v < pow16(n),
        w < pow16(n),
        nibbles(v, n) == nibbles(w, n),
    ensures
        v == w,
    decreases n,
{
    if n > 0 {
        lemma_nibbles_len(v / 16, (n - 1) as nat);
        lemma_nibbles_len(w / 16, (n - 1) as nat);
        assert(nibbles(v, n).last() == hex_digit_of((v % 16) as u8));
        assert(nibbles(w, n).last() == hex_digit_of((w % 16) as u8));
        assert(v % 16 == w % 16);
        assert(nibbles(v, n).drop_last() =~= nibbles(v / 16, (n - 1) as nat));
        assert(nibbles(w, n).drop_last() =~= nibbles(w / 16, (n - 1) as nat));
        lemma_nibbles_injective(v / 16, w / 16, (n - 1) as nat);
    }
}

/// The canonical text is injective: equal texts name the same identifier.
pub proof fn lemma_id_text_injective(a: OperationId, b: OperationId)
    requires
        id_text(a) == id_text(b),
    ensures
        a == b,
{
    lemma_nibbles_len(a.token as nat, 16);
    lemma_nibbles_len(b.token as nat, 16);
    lemma_nibbles_len(a.nonce as nat, 16);
    lemma_nibbles_len(b.nonce as nat, 16);
    assert(nibbles(a.token as nat, 16) =~= id_text(a).subrange(0, 16));
    assert(nibbles(b.token as nat, 16) =~= id_text(b).subrange(0, 16));
    assert(nibbles(a.nonce as nat, 16) =~= id_text(a).subrange(16, 32));
    assert(nibbles(b.nonce as nat, 16) =~= id_text(b).subrange(16, 32));
    assert(pow16(16) == 0x1_0000_0000_0000_0000) by {
        reveal_with_fuel(pow16, 17);
    }
    lemma_nibbles_injective(a.token as nat, b.token as nat, 16);
    lemma_nibbles_injective(a.nonce as nat, b.nonce as nat, 16);
}

/// The sixteen-digit rendering of one machine word.
fn u64_hex(v: u64) -> (r: Vec<u8>)
    ensures
        r@ == nibbles(v as nat, 16),
{
    let mut rev: Vec<u8> = Vec::new();
    let mut cur: u64 = v;
    let mut i: usize = 0;
    while i < 16
        invariant
            i <= 16,
            rev@.len() == i,
            nibbles(v as nat, 16) == nibbles(cur as nat, (16 - i) as nat) + rev@.reverse(),
        decreases 16 - i,
    {
        let d: u8 = (cur % 16) as u8;
        let digit: u8 = if d < 10 {
            0x30 + d
        } else {
            0x57 + d
        };
        proof {
            assert(digit == hex_digit_of(d));
            assert(nibbles(cur as nat, (16 - i) as nat) == nibbles(
                (cur / 16) as nat,
                (16 - i - 1) as nat,
            ).push(digit));
            assert((rev@.push(digit)).reverse() =~= seq![digit] + rev@.reverse());
            assert(nibbles((cur / 16) as nat, (16 - i - 1) as nat).push(digit) + rev@.reverse()
                =~= nibbles((cur / 16) as nat, (16 - i - 1) as nat) + (rev@.push(
                digit,
            )).reverse());
        }
        rev.push(digit);
        cur = cur / 16;
        i = i + 1;
    }
    proof {
        assert(nibbles(cur as nat, 0) + rev@.reverse() =~= rev@.reverse());
        lemma_nibbles_len(v as nat, 16);
    }
    let mut out: Vec<u8> = Vec::new();
    let mut j: usize = 16;
    while j > 0
        invariant
            j <= 16,
            rev@.len() == 16,
            rev@.reverse() == nibbles(v as nat, 16),
            out@.len() == 16 - j,
            forall|k: int| 0 <= k < out@.len() ==> out@[k] == rev@.reverse()[k],
        decreases j,
    {
        out.push(rev[j - 1]);
        j = j - 1;
    }
    proof {
        assert(out@ =~= nibbles(v as nat, 16));
    }
    out
}

impl OperationId {
    /// The canonical text of this identifier: 32 lowercase hex digits, as
    /// bytes.
    pub fn to_text(&self) -> (r: Vec<u8>)
        ensures
            r@ == id_text(*self),
    {
        let mut out = u64_hex(self.token);
        let mut tail = u64_hex(self.nonce);
        out.append(&mut tail);
        out
    }

    /// Parse a canonical identifier text. Succeeds exactly on the canonical
    /// texts: on `Some(id)` the input is `id_text(id)`, and on `None` the
    /// input is the text of no identifier at all.
    pub fn from_text(s: &[u8]) -> (r: Option<OperationId>)
        ensures
            match r {
                Some(id) => s@ == id_text(id),
                None => forall|id: OperationId| s@ != id_text(id),
            },
    {
        proof {
            assert forall|id: OperationId| id_text(id).len() == 32 by {
                lemma_nibbles_len(id.token as nat, 16);
                lemma_nibbles_len(id.nonce as nat, 16);
            }
        }
        if s.len() != 32 {
            return None;
        }
        let token = match parse_u64_hex(s, 0) {
            Some(v) => v,
            None => {
                proof {
                    assert forall|id: OperationId| s@ != id_text(id) by {
                        lemma_nibbles_len(id.token as nat, 16);
                        lemma_nibbles_len(id.nonce as nat, 16);
                        lemma_nibbles_digits(id.token as nat, 16);
                        lemma_nibbles_digits(id.nonce as nat, 16);
                        if s@ == id_text(id) {
                            assert forall|k: int| 0 <= k < 16 implies is_lower_hex(
                                #[trigger] s@[k],
                            ) by {
                                assert(s@[k] == nibbles(id.token as nat, 16)[k]);
                            }
                            assert(false);
                        }
                    }
                }
                return None;
            },
        };
        let nonce = match parse_u64_hex(s, 16) {
            Some(v) => v,
            None => {
                proof {
                    assert forall|id: OperationId| s@ != id_text(id) by {
                        lemma_nibbles_len(id.token as nat, 16);
                        lemma_nibbles_len(id.nonce as nat, 16);
                        lemma_nibbles_digits(id.nonce as nat, 16);
                        if s@ == id_text(id) {
                            assert forall|k: int| 16 <= k < 32 implies is_lower_hex(
                                #[trigger] s@[k],
                            ) by {
                                assert(s@[k] == nibbles(id.nonce as nat, 16)[k - 16]);
                            }
                            assert(false);
                        }
                    }
                }
                return None;
            },
        };
        let id = OperationId { nonce, token };
        proof {
            assert(s@ =~= id_text(id));
        }
        Some(id)
    }
}

/// Read sixteen lowercase digits starting at `from` as one machine word;
/// `None` when some byte there is no lowercase digit.
fn parse_u64_hex(s: &[u8], from: usize) -> (r: Option<u64>)
    requires
        from + 16 <= s@.len(),
    ensures
        match r {
            Some(v) => nibbles(v as nat, 16) == s@.subrange(from as int, from + 16),
            None => exists|k: int| from <= k < from + 16 && !is_lower_hex(#[trigger] s@[k]),
        },
{
    let n: usize = s.len();
    let mut acc: u64 = 0;
    let mut i: usize = 0;
    while i < 16
        invariant
            i <= 16,
            n == s@.len(),
            from + 16 <= n,
            acc < pow16(i as nat),
            nibbles(acc as nat, i as nat) == s@.subrange(from as int, from + i),
        decreases 16 - i,
    {
        let b = s[from + i];
        let d: u8 = if 0x30 <= b && b <= 0x39 {
            b - 0x30
        } else if 0x61 <= b && b <= 0x66 {
            b - 0x57
        } else {
            assert(!is_lower_hex(s@[from + i]));
            return None;
        };
        proof {
            assert(hex_digit_of(d) == b);
            lemma_pow16_mono(i as nat, 15);
            assert(pow16(15) * 16 == pow16(16));
            assert(pow16(16) == 0x1_0000_0000_0000_0000) by {
                reveal_with_fuel(pow16, 17);
            }
        }
        let next: u64 = acc * 16 + (d as u64);
        proof {
            assert(next as nat / 16 == acc as nat && next as nat % 16 == d as nat)
                by (nonlinear_arith)
                requires
                    next == acc * 16 + d,
                    d < 16,
                    acc >= 0,
                    d >= 0,
            ;
            assert(nibbles(next as nat, (i + 1) as nat) == nibbles(acc as nat, i as nat).push(b));
            assert(nibbles(acc as nat, i as nat).push(b) =~= s@.subrange(
                from as int,
                from + i + 1,
            ));
            assert(next < pow16((i + 1) as nat)) by (nonlinear_arith)
                requires
                    next == acc * 16 + d,
                    d < 16,
                    acc < pow16(i as nat),
                    pow16((i + 1) as nat) == 16 * pow16(i as nat),
            ;
        }
        acc = next;
        i = i + 1;
    }
    Some(acc)
}

} // verus!
