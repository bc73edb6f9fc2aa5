use vstd::prelude::*;

verus! {

/// 2^64, as a `u128` divisor for limb arithmetic.
pub const LIMB: u128 = 0x1_0000_0000_0000_0000;

/// 2^64 as a mathematical integer.
pub open spec fn pow64() -> int {
    0x1_0000_0000_0000_0000
}

/// 2^128 as a mathematical integer.
pub open spec fn pow128() -> int {
    pow64() * pow64()
}

/// 2^256 as a mathematical integer: one more than the largest 256-bit word.
pub open spec fn pow256() -> int {
    pow128() * pow128()
}

/// A 256-bit unsigned word: the type of transaction values and storage cells.
#[derive(Clone, Copy, PartialEq, Eq, Structural, Debug)]
pub struct U256 {
    pub hi: u128,
    pub lo: u128,
}

impl U256 {
    /// The mathematical value: `hi * 2^128 + lo`.
    pub open spec fn as_int(self) -> int {
        self.hi * pow128() + self.lo
    }

    pub fn zero() -> (r: U256)
        ensures
            r.as_int() == 0,
    {
        U256 { hi: 0, lo: 0 }
    }

}

/// Two distinct words have distinct values, and conversely.
pub proof fn lemma_u256_value_injective(a: U256, b: U256)
    ensures
        a.as_int() == b.as_int() <==> a == b,
{
    if a.as_int() == b.as_int() && a != b {
        assert(a.hi * pow128() + a.lo == b.hi * pow128() + b.lo);
        if a.hi != b.hi {
            assert((a.hi - b.hi) * pow128() == b.lo - a.lo) by (nonlinear_arith)
                requires
                    a.hi * pow128() + a.lo == b.hi * pow128() + b.lo,
            ;
            assert(false) by (nonlinear_arith)
                requires
                    (a.hi - b.hi) * pow128() == b.lo - a.lo,
                    a.hi != b.hi,
                    a.lo < pow128(),
                    b.lo < pow128(),
                    0 <= a.hi,
                    0 <= b.hi,
            ;
        }
    }
}

/// A 160-bit account address: `hi * 2^128 + lo`.
#[derive(Clone, Copy, PartialEq, Eq, Structural, Debug)]
pub struct Address {
    pub hi: u32,
    pub lo: u128,
}

impl Address {
    /// The mathematical value: `hi * 2^128 + lo`.
    pub open spec fn as_int(self) -> int {
        self.hi * pow128() + self.lo
    }

    pub fn zero() -> (r: Address)
        ensures
            r.as_int() == 0,
    {
        Address { hi: 0, lo: 0 }
    }
}

/// Two distinct addresses have distinct values, and conversely.
pub proof fn lemma_address_value_injective(a: Address, b: Address)
    ensures
        a.as_int() == b.as_int() <==> a == b,
{
    if a.as_int() == b.as_int() && a != b {
        if a.hi != b.hi {
            assert(false) by (nonlinear_arith)
                requires
                    a.hi * pow128() + a.lo == b.hi * pow128() + b.lo,
                    a.hi != b.hi,
                    a.lo < pow128(),
                    b.lo < pow128(),
                    0 <= a.hi,
                    0 <= b.hi,
            ;
        }
    }
}

/// Multiplies a word by ten and adds one decimal digit, reporting overflow
/// past 2^256 instead of wrapping.
pub fn mul10_add(v: U256, d: u8) -> (r: Option<U256>)
    requires
        d < 10,
    ensures
        match r {
            Some(w) => w.as_int() == v.as_int() * 10 + d,
            None => v.as_int() * 10 + d >= pow256(),
        },
{
    let lo_lo: u128 = v.lo % LIMB;
    let lo_hi: u128 = v.lo / LIMB;
    let t0: u128 = lo_lo * 10 + d as u128;
    let t1: u128 = lo_hi * 10 + t0 / LIMB;
    let new_lo: u128 = (t0 % LIMB) + (t1 % LIMB) * LIMB;
    let carry: u128 = t1 / LIMB;
    let hi_lo: u128 = v.hi % LIMB;
    let hi_hi: u128 = v.hi / LIMB;
    let h0: u128 = hi_lo * 10 + carry;
    let h1: u128 = hi_hi * 10 + h0 / LIMB;
    proof {
        assert(v.lo == lo_hi * pow64() + lo_lo);
        assert(v.hi == hi_hi * pow64() + hi_lo);
        assert(t0 == (t0 / LIMB) * pow64() + t0 % LIMB);
        assert(t1 == carry * pow64() + t1 % LIMB);
        assert(h0 == (h0 / LIMB) * pow64() + h0 % LIMB);
        assert(h1 == (h1 / LIMB) * pow64() + h1 % LIMB);
        assert(v.lo * 10 + d == t1 * pow64() + t0 % LIMB) by (nonlinear_arith)
            requires
                v.lo == lo_hi * pow64() + lo_lo,
                t0 == lo_lo * 10 + d,
                t1 == lo_hi * 10 + t0 / LIMB,
                t0 == (t0 / LIMB) * pow64() + t0 % LIMB,
        ;
        assert(v.lo * 10 + d == carry * pow128() + (t1 % LIMB) * pow64() + t0 % LIMB)
            by (nonlinear_arith)
            requires
                v.lo * 10 + d == t1 * pow64() + t0 % LIMB,
                t1 == carry * pow64() + t1 % LIMB,
        ;
        assert(v.hi * 10 + carry == h1 * pow64() + h0 % LIMB) by (nonlinear_arith)
            requires
                v.hi == hi_hi * pow64() + hi_lo,
                h0 == hi_lo * 10 + carry,
                h1 == hi_hi * 10 + h0 / LIMB,
                h0 == (h0 / LIMB) * pow64() + h0 % LIMB,
        ;
    }
    if h1 / LIMB != 0 {
        proof {
            let new_hi_val = (h1 % LIMB) * pow64() + h0 % LIMB;
            assert(v.as_int() * 10 + d == (v.hi * 10 + carry) * pow128() + (v.lo * 10 + d)
                - carry * pow128()) by (nonlinear_arith)
                requires
                    v.as_int() == v.hi * pow128() + v.lo,
            ;
            assert((v.hi * 10 + carry) * pow128() == (h1 / LIMB) * pow256() + new_hi_val * pow128())
                by (nonlinear_arith)
                requires
                    v.hi * 10 + carry == h1 * pow64() + h0 % LIMB,
                    h1 == (h1 / LIMB) * pow64() + h1 % LIMB,
                    new_hi_val == (h1 % LIMB) * pow64() + h0 % LIMB,
                    pow256() == pow128() * pow128(),
                    pow128() == pow64() * pow64(),
            ;
            assert(v.as_int() * 10 + d >= pow256()) by (nonlinear_arith)
                requires
                    v.as_int() * 10 + d == (h1 / LIMB) * pow256() + new_hi_val * pow128() + (v.lo
                        * 10 + d) - carry * pow128(),
                    v.lo * 10 + d == carry * pow128() + (t1 % LIMB) * pow64() + t0 % LIMB,
                    h1 / LIMB >= 1,
                    new_hi_val >= 0,
                    (t1 % LIMB) * pow64() + t0 % LIMB >= 0,
                    pow256() > 0,
            ;
        }
        None
    } else {
        let new_hi: u128 = (h0 % LIMB) + (h1 % LIMB) * LIMB;
        proof {
            assert(new_hi == v.hi * 10 + carry);
            assert(new_hi * pow128() + new_lo == v.as_int() * 10 + d) by (nonlinear_arith)
                requires
                    new_hi == v.hi * 10 + carry,
                    new_lo == (t1 % LIMB) * pow64() + t0 % LIMB,
                    v.lo * 10 + d == carry * pow128() + (t1 % LIMB) * pow64() + t0 % LIMB,
                    v.as_int() == v.hi * pow128() + v.lo,
            ;
        }
        Some(U256 { hi: new_hi, lo: new_lo })
    }
}

/// True of the byte of a decimal digit.
pub open spec fn is_dec_digit(b: u8) -> bool {
    48 <= b && b <= 57
}

/// True when every byte is a decimal digit; an empty text qualifies.
pub open spec fn all_dec_digits(s: Seq<u8>) -> bool {
    forall|i: int| 0 <= i < s.len() ==> is_dec_digit(#[trigger] s[i])
}

/// The number a run of decimal digits denotes, most significant first.
pub open spec fn dec_digits_val(s: Seq<u8>) -> int
    decreases s.len(),
{
    if s.len() == 0 {
        0
    } else {
        dec_digits_val(s.drop_last()) * 10 + (s.last() - 48)
    }
}

/// True of the byte of a hexadecimal digit, either case.
pub open spec fn is_hex_digit(b: u8) -> bool {
    (48 <= b && b <= 57) || (97 <= b && b <= 102) || (65 <= b && b <= 70)
}

/// The value of one hexadecimal digit byte.
pub open spec fn hex_digit_val(b: u8) -> int {
    if 48 <= b && b <= 57 {
        b - 48
    } else if 97 <= b && b <= 102 {
        b - 87
    } else if 65 <= b && b <= 70 {
        b - 55
    } else {
        0
    }
}

/// True when every byte is a hexadecimal digit; an empty text qualifies.
pub open spec fn all_hex_digits(s: Seq<u8>) -> bool {
    forall|i: int| 0 <= i < s.len() ==> is_hex_digit(#[trigger] s[i])
}

/// The number a run of hexadecimal digits denotes, most significant first.
pub open spec fn hex_digits_val(s: Seq<u8>) -> int
    decreases s.len(),
{
    if s.len() == 0 {
        0
    } else {
        hex_digits_val(s.drop_last()) * 16 + hex_digit_val(s.last())
    }
}

/// 16^n as a mathematical integer.
pub open spec fn pow16(n: nat) -> int
    decreases n,
{
    if n == 0 {
        1
    } else {
        16 * pow16((n - 1) as nat)
    }
}

pub proof fn lemma_pow16_le(a: nat, b: nat)
    requires
        a <= b,
    ensures
        pow16(a) <= pow16(b),
        pow16(a) >= 1,
    decreases b,
{
    if b > 0 {
        if a == b {
            lemma_pow16_le((a - 1) as nat, (b - 1) as nat);
        } else {
            lemma_pow16_le(a, (b - 1) as nat);
        }
    }
}

/// The two digit-run lengths the address reader uses, as concrete powers.
pub proof fn lemma_pow16_values()
    ensures
        pow16(8) == 0x1_0000_0000,
        pow16(32) == pow128(),
{
    reveal_with_fuel(pow16, 33);
}

/// A run of hexadecimal digits denotes a value below 16 to its length.
pub proof fn lemma_hex_digits_val_bound(s: Seq<u8>)
    requires
        all_hex_digits(s),
    ensures
        0 <= hex_digits_val(s) < pow16(s.len()),
    decreases s.len(),
{
    if s.len() > 0 {
        assert(all_hex_digits(s.drop_last())) by {
            assert(forall|i: int|
                0 <= i < s.len() - 1 ==> s.drop_last()[i] == #[trigger] s[i]);
        }
        lemma_hex_digits_val_bound(s.drop_last());
        assert(is_hex_digit(s.last()));
        assert(hex_digits_val(s) < pow16(s.len())) by (nonlinear_arith)
            requires
                hex_digits_val(s) == hex_digits_val(s.drop_last()) * 16 + hex_digit_val(s.last()),
                0 <= hex_digits_val(s.drop_last()) < pow16((s.len() - 1) as nat),
                0 <= hex_digit_val(s.last()) < 16,
                pow16(s.len()) == 16 * pow16((s.len() - 1) as nat),
        ;
    }
}

/// A run of digits read most significant first: a prefix denotes no more
/// than the whole.
pub proof fn lemma_dec_digits_val_take_le(s: Seq<u8>, j: int)
    requires
        all_dec_digits(s),
        0 <= j <= s.len(),
    ensures
        0 <= dec_digits_val(s.take(j)) <= dec_digits_val(s),
    decreases s.len() - j,
{
    lemma_dec_digits_val_nonneg(s.take(j));
    if j < s.len() {
        assert(s.take(j + 1).drop_last() =~= s.take(j));
        assert(s.take(j + 1).last() == s[j]);
        lemma_dec_digits_val_take_le(s, j + 1);
        assert(dec_digits_val(s.take(j)) * 10 + (s[j] - 48) == dec_digits_val(s.take(j + 1)));
        assert(dec_digits_val(s.take(j)) <= dec_digits_val(s.take(j)) * 10) by (nonlinear_arith)
            requires
                dec_digits_val(s.take(j)) >= 0,
        ;
    } else {
        assert(s.take(j) =~= s);
    }
}

pub proof fn lemma_dec_digits_val_nonneg(s: Seq<u8>)
    requires
        all_dec_digits(s),
    ensures
        dec_digits_val(s) >= 0,
    decreases s.len(),
{
    if s.len() > 0 {
        assert(all_dec_digits(s.drop_last())) by {
            assert(forall|i: int|
                0 <= i < s.len() - 1 ==> s.drop_last()[i] == #[trigger] s[i]);
        }
        lemma_dec_digits_val_nonneg(s.drop_last());
    }
}

/// Splitting a digit run: the whole denotes the head scaled by 16 to the
/// tail's length, plus the tail.
pub proof fn lemma_hex_digits_val_append(a: Seq<u8>, b: Seq<u8>)
    ensures
        hex_digits_val(a + b) == hex_digits_val(a) * pow16(b.len()) + hex_digits_val(b),
    decreases b.len(),
{
    if b.len() == 0 {
        assert(a + b =~= a);
    } else {
        assert((a + b).drop_last() =~= a + b.drop_last());
        assert((a + b).last() == b.last());
        lemma_hex_digits_val_append(a, b.drop_last());
        assert(hex_digits_val(a + b) == (hex_digits_val(a) * pow16((b.len() - 1) as nat)
            + hex_digits_val(b.drop_last())) * 16 + hex_digit_val(b.last()));
        assert((hex_digits_val(a) * pow16((b.len() - 1) as nat)) * 16 == hex_digits_val(a) * (16
            * pow16((b.len() - 1) as nat))) by (nonlinear_arith);
    }
}

/// Reads one byte as a hexadecimal digit.
pub fn hex_nibble(b: u8) -> (r: Option<u8>)
    ensures
        match r {
            Some(v) => is_hex_digit(b) && v == hex_digit_val(b),
            None => !is_hex_digit(b),
        },
{
    if 48 <= b && b <= 57 {
        Some(b - 48)
    } else if 97 <= b && b <= 102 {
        Some(b - 87)
    } else if 65 <= b && b <= 70 {
        Some(b - 55)
    } else {
        None
    }
}

/// Reads the hexadecimal digits of `h` between `start` and `end` into one
/// 128-bit limb.
pub fn parse_hex_range(h: &[u8], start: usize, end: usize) -> (r: Option<u128>)
    requires
        start <= end <= h@.len(),
        end - start <= 32,
    ensures
        match r {
            Some(v) => all_hex_digits(h@.subrange(start as int, end as int)) && v
                == hex_digits_val(h@.subrange(start as int, end as int)),
            None => !all_hex_digits(h@.subrange(start as int, end as int)),
        },
{
    let mut acc: u128 = 0;
    let mut i: usize = start;
    proof {
        assert(h@.subrange(start as int, start as int) =~= Seq::<u8>::empty());
        lemma_pow16_values();
    }
    while i < end
        invariant
            start <= i <= end <= h@.len(),
            end - start <= 32,
            pow16(32) == pow128(),
            all_hex_digits(h@.subrange(start as int, i as int)),
            acc == hex_digits_val(h@.subrange(start as int, i as int)),
            acc < pow16((i - start) as nat),
        decreases end - i,
    {
        let b = h[i];
        match hex_nibble(b) {
            None => {
                proof {
                    assert(h@.subrange(start as int, end as int)[i - start] == h@[i as int]);
                }
                return None;
            },
            Some(d) => {
                proof {
                    lemma_pow16_le(((i + 1) - start) as nat, 32);
                    assert(acc * 16 + d < pow16(((i + 1) - start) as nat)) by (nonlinear_arith)
                        requires
                            acc < pow16((i - start) as nat),
                            d < 16,
                            0 <= acc,
                            pow16(((i + 1) - start) as nat) == 16 * pow16((i - start) as nat),
                    ;
                    assert(h@.subrange(start as int, (i + 1) as int).drop_last() =~= h@.subrange(
                        start as int,
                        i as int,
                    ));
                    assert(h@.subrange(start as int, (i + 1) as int).last() == h@[i as int]);
                }
                acc = acc * 16 + d as u128;
                i = i + 1;
            },
        }
    }
    proof {
        lemma_pow16_le(((i) - start) as nat, 32);
    }
    Some(acc)
}

/// Reads exactly forty hexadecimal digits as an account address.
pub fn parse_address_hex(h: &[u8]) -> (r: Option<Address>)
    ensures
        match r {
            Some(a) => h@.len() == 40 && all_hex_digits(h@) && a.as_int() == hex_digits_val(h@),
            None => !(h@.len() == 40 && all_hex_digits(h@)),
        },
{
    if h.len() != 40 {
        return None;
    }
    let hi128 = match parse_hex_range(h, 0, 8) {
        None => {
            return None;
        },
        Some(v) => v,
    };
    let lo = match parse_hex_range(h, 8, 40) {
        None => {
            return None;
        },
        Some(v) => v,
    };
    proof {
        assert(h@ =~= h@.subrange(0, 8) + h@.subrange(8, 40));
        lemma_hex_digits_val_append(h@.subrange(0, 8), h@.subrange(8, 40));
        lemma_hex_digits_val_bound(h@.subrange(0, 8));
        lemma_hex_digits_val_bound(h@.subrange(8, 40));
        lemma_pow16_values();
        assert(forall|i: int| 0 <= i < 40 ==> is_hex_digit(#[trigger] h@[i])) by {
            assert(forall|i: int|
                0 <= i < 8 ==> h@[i] == #[trigger] h@.subrange(0, 8)[i]);
            assert(forall|i: int|
                8 <= i < 40 ==> h@[i] == #[trigger] h@.subrange(8, 40)[i - 8]);
        }
    }
    let hi: u32 = hi128 as u32;
    Some(Address { hi, lo })
}

/// Reads one to sixty-four hexadecimal digits as a 256-bit word.
pub fn parse_hex_u256(h: &[u8]) -> (r: Option<U256>)
    ensures
        match r {
            Some(v) => 1 <= h@.len() <= 64 && all_hex_digits(h@) && v.as_int()
                == hex_digits_val(h@),
            None => !(1 <= h@.len() <= 64 && all_hex_digits(h@)),
        },
{
    if h.len() == 0 || h.len() > 64 {
        return None;
    }
    if h.len() <= 32 {
        proof {
            assert(h@.subrange(0, h@.len() as int) =~= h@);
        }
        match parse_hex_range(h, 0, h.len()) {
            None => None,
            Some(lo) => {
                let w = U256 { hi: 0, lo };
                proof {
                    assert(all_hex_digits(h@));
                    assert(lo == hex_digits_val(h@));
                    assert(w.as_int() == 0 * pow128() + lo);
                    assert(w.as_int() == hex_digits_val(h@));
                }
                Some(w)
            },
        }
    } else {
        let split = h.len() - 32;
        let hi = match parse_hex_range(h, 0, split) {
            None => {
                proof {
                    if all_hex_digits(h@) {
                        assert(forall|i: int|
                            0 <= i < split ==> #[trigger] h@.subrange(0, split as int)[i]
                                == h@[i]);
                    }
                }
                return None;
            },
            Some(hi) => hi,
        };
        let lo = match parse_hex_range(h, split, h.len()) {
            None => {
                proof {
                    if all_hex_digits(h@) {
                        assert(forall|i: int|
                            0 <= i < 32 ==> #[trigger] h@.subrange(
                                split as int,
                                h@.len() as int,
                            )[i] == h@[i + split]);
                    }
                }
                return None;
            },
            Some(lo) => lo,
        };
        proof {
            assert(h@ =~= h@.subrange(0, split as int) + h@.subrange(
                split as int,
                h@.len() as int,
            ));
            lemma_hex_digits_val_append(
                h@.subrange(0, split as int),
                h@.subrange(split as int, h@.len() as int),
            );
            lemma_pow16_values();
            assert(forall|i: int| 0 <= i < h@.len() ==> is_hex_digit(#[trigger] h@[i])) by {
                assert(forall|i: int|
                    0 <= i < split ==> h@[i] == #[trigger] h@.subrange(0, split as int)[i]);
                assert(forall|i: int|
                    split <= i < h@.len() ==> h@[i] == #[trigger] h@.subrange(
                        split as int,
                        h@.len() as int,
                    )[i - split]);
            }
            assert(hex_digits_val(h@) == hi * pow16(32) + lo);
            assert(hi * pow16(32) == hi * pow128());
            assert((U256 { hi, lo }).as_int() == hex_digits_val(h@));
        }
        Some(U256 { hi, lo })
    }
}

/// Reads a run of decimal digits as a 256-bit word, reporting a malformed
/// digit or a value past 2^256 as failure.
pub fn parse_dec_u256(s: &[u8]) -> (r: Option<U256>)
    ensures
        match r {
            Some(v) => all_dec_digits(s@) && dec_digits_val(s@) < pow256() && v.as_int()
                == dec_digits_val(s@),
            None => !(all_dec_digits(s@) && dec_digits_val(s@) < pow256()),
        },
{
    let mut acc = U256::zero();
    let mut i: usize = 0;
    proof {
        assert(s@.take(0) =~= Seq::<u8>::empty());
        assert(pow256() > 0) by (nonlinear_arith)
            requires
                pow128() > 0,
                pow256() == pow128() * pow128(),
        ;
    }
    while i < s.len()
        invariant
            0 <= i <= s@.len(),
            all_dec_digits(s@.take(i as int)),
            acc.as_int() == dec_digits_val(s@.take(i as int)),
            acc.as_int() < pow256(),
        decreases s@.len() - i,
    {
        let b = s[i];
        if b < 48 || b > 57 {
            proof {
                assert(!is_dec_digit(s@[i as int]));
            }
            return None;
        }
        proof {
            assert(s@.take(i + 1).drop_last() =~= s@.take(i as int));
            assert(s@.take(i + 1).last() == s@[i as int]);
        }
        match mul10_add(acc, b - 48) {
            None => {
                proof {
                    if all_dec_digits(s@) {
                        lemma_dec_digits_val_take_le(s@, i + 1);
                    }
                }
                return None;
            },
            Some(w) => {
                proof {
                    assert(w.as_int() < pow256()) by (nonlinear_arith)
                        requires
                            w.as_int() == w.hi * pow128() + w.lo,
                            0 <= w.hi < pow128(),
                            0 <= w.lo < pow128(),
                            pow256() == pow128() * pow128(),
                    ;
                }
                acc = w;
                i = i + 1;
            },
        }
    }
    proof {
        assert(s@.take(i as int) =~= s@);
    }
    Some(acc)
}

} // verus!
