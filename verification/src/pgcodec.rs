//! Wire-format integer codecs: decoding a database value, carried either as
//! big-endian binary bytes or as decimal text, into an integer, and encoding
//! an integer as big-endian bytes.

use vstd::prelude::*;

verus! {

/// How a wire value is carried.
#[derive(Clone, Copy, Debug, PartialEq, Eq, Structural)]
pub enum PgValueFormat {
    Binary,
    Text,
}

/// A wire value: its carrying format and its raw bytes.
pub struct PgValue {
    pub format: PgValueFormat,
    pub data: Vec<u8>,
}

/// The buffer encoded argument bytes are appended to.
pub struct PgArgumentBuffer {
    pub data: Vec<u8>,
}

/// Whether an encoded argument stands for SQL null.
#[derive(Clone, Copy, Debug, PartialEq, Eq, Structural)]
pub enum IsNull {
    Yes,
    No,
}

/// The wire type of an encoded argument.
#[derive(Clone, Copy, Debug, PartialEq, Eq, Structural)]
pub enum PgTypeInfo {
    Bytea,
}

/// Big-endian value of a byte sequence.
pub open spec fn spec_be(b: Seq<u8>) -> nat
    decreases b.len(),
{
    if b.len() == 0 {
        0
    } else {
        (spec_be(b.drop_last()) * 256 + b.last()) as nat
    }
}

/// 256 to the n-th.
pub open spec fn pow256(n: nat) -> nat
    decreases n,
{
    if n == 0 {
        1
    } else {
        256 * pow256((n - 1) as nat)
    }
}

pub proof fn lemma_be_bound(b: Seq<u8>)
    ensures
        spec_be(b) < pow256(b.len()),
    decreases b.len(),
{
    if b.len() > 0 {
        lemma_be_bound(b.drop_last());
    }
}

/// Reads the big-endian value of the first `n` bytes.
fn be_read(data: &Vec<u8>, n: usize) -> (r: u64)
    requires
        n <= data@.len(),
        n <= 8,
    ensures
        r as nat == spec_be(data@.subrange(0, n as int)),
{
    let mut acc: u64 = 0;
    let mut i: usize = 0;
    proof {
        reveal_with_fuel(pow256, 9);
        assert(data@.subrange(0, 0) =~= Seq::<u8>::empty());
    }
    #[verifier::loop_isolation(false)]
    while i < n
        invariant
            i <= n,
            acc as nat == spec_be(data@.subrange(0, i as int)),
            (acc as nat) < pow256(i as nat),
        decreases n - i,
    {
        proof {
            reveal_with_fuel(pow256, 9);
            assert(data@.subrange(0, i + 1).drop_last() =~= data@.subrange(0, i as int));
            assert(data@.subrange(0, i + 1).last() == data@[i as int]);
            assert(pow256(i as nat) * 256 == pow256((i + 1) as nat)) by {
                reveal_with_fuel(pow256, 9);
            }
            assert(acc as nat * 256 + 256 <= pow256((i + 1) as nat)) by (nonlinear_arith)
                requires
                    (acc as nat) < pow256(i as nat),
                    pow256(i as nat) * 256 == pow256((i + 1) as nat),
            ;
            assert(pow256((i + 1) as nat) <= pow256(8)) by {
                reveal_with_fuel(pow256, 9);
                lemma_pow256_monotone((i + 1) as nat, 8);
            }
        }
        acc = acc * 256 + (data[i] as u64);
        i = i + 1;
    }
    acc
}

pub proof fn lemma_pow256_monotone(a: nat, b: nat)
    requires
        a <= b,
    ensures
        pow256(a) <= pow256(b),
    decreases b,
{
    if a < b {
        lemma_pow256_monotone(a, (b - 1) as nat);
        assert(pow256(b) == 256 * pow256((b - 1) as nat));
    }
}

/// Every byte is an ASCII decimal digit.
pub open spec fn all_digits(b: Seq<u8>) -> bool {
    forall|i: int| 0 <= i < b.len() ==> 48 <= #[trigger] b[i] <= 57
}

/// The decimal value of digit text.
pub open spec fn spec_dec(b: Seq<u8>) -> nat
    decreases b.len(),
{
    if b.len() == 0 {
        0
    } else {
        spec_dec(b.drop_last()) * 10 + (if 48 <= b.last() <= 57 {
            (b.last() - 48) as nat
        } else {
            0
        })
    }
}

pub proof fn lemma_dec_monotone(b: Seq<u8>, i: int, j: int)
    requires
        0 <= i <= j <= b.len(),
    ensures
        spec_dec(b.subrange(0, i)) <= spec_dec(b.subrange(0, j)),
    decreases j - i,
{
    if i < j {
        lemma_dec_monotone(b, i, j - 1);
        assert(b.subrange(0, j).drop_last() =~= b.subrange(0, j - 1));
    }
}

/// Whether the bytes are valid signed decimal text: digits with an optional
/// leading minus sign.
pub open spec fn dec_valid(b: Seq<u8>) -> bool {
    if b.len() > 0 && b[0] == 45 {
        b.len() > 1 && all_digits(b.drop_first())
    } else {
        b.len() > 0 && all_digits(b)
    }
}

/// The signed decimal value of the text.
pub open spec fn spec_dec_signed(b: Seq<u8>) -> int {
    if b.len() > 0 && b[0] == 45 {
        -(spec_dec(b.drop_first()) as int)
    } else {
        spec_dec(b) as int
    }
}

/// Parses unsigned decimal text; `None` on empty or non-digit text and on
/// values over the unsigned 64-bit range.
pub fn parse_u64_dec(data: &Vec<u8>) -> (r: Option<u64>)
    ensures
        match r {
            Some(v) => data@.len() > 0 && all_digits(data@) && v as nat == spec_dec(data@),
            None => data@.len() == 0 || !all_digits(data@) || spec_dec(data@) > u64::MAX,
        },
{
    if data.len() == 0 {
        return None;
    }
    let mut acc: u64 = 0;
    let mut i: usize = 0;
    proof {
        assert(data@.subrange(0, 0) =~= Seq::<u8>::empty());
    }
    #[verifier::loop_isolation(false)]
    while i < data.len()
        invariant
            i <= data@.len(),
            acc as nat == spec_dec(data@.subrange(0, i as int)),
            forall|j: int| 0 <= j < i ==> 48 <= #[trigger] data@[j] <= 57,
        decreases data@.len() - i,
    {
        let b = data[i];
        if b < 48 || b > 57 {
            return None;
        }
        let d = (b - 48) as u64;
        proof {
            assert(data@.subrange(0, i + 1).drop_last() =~= data@.subrange(0, i as int));
            assert(data@.subrange(0, i + 1).last() == data@[i as int]);
        }
        let m = match acc.checked_mul(10) {
            Some(m) => m,
            None => {
                proof {
                    lemma_dec_monotone(data@, i + 1, data@.len() as int);
                    assert(data@.subrange(0, data@.len() as int) =~= data@);
                }
                return None;
            },
        };
        let a = match m.checked_add(d) {
            Some(a) => a,
            None => {
                proof {
                    lemma_dec_monotone(data@, i + 1, data@.len() as int);
                    assert(data@.subrange(0, data@.len() as int) =~= data@);
                }
                return None;
            },
        };
        acc = a;
        i = i + 1;
    }
    proof {
        assert(data@.subrange(0, data@.len() as int) =~= data@);
    }
    Some(acc)
}

/// Parses signed decimal text; `None` on invalid text and on values outside
/// the signed 64-bit range.
pub fn parse_i64_dec(data: &Vec<u8>) -> (r: Option<i64>)
    ensures
        match r {
            Some(v) => dec_valid(data@) && v as int == spec_dec_signed(data@),
            None => !dec_valid(data@) || spec_dec_signed(data@) > i64::MAX || spec_dec_signed(
                data@,
            ) < i64::MIN,
        },
{
    if data.len() > 0 && data[0] == 45 {
        let mut rest: Vec<u8> = Vec::new();
        let mut i: usize = 1;
        #[verifier::loop_isolation(false)]
        while i < data.len()
            invariant
                1 <= i <= data@.len(),
                rest@ == data@.subrange(1, i as int),
            decreases data@.len() - i,
        {
            rest.push(data[i]);
            proof {
                assert(rest@ =~= data@.subrange(1, i + 1));
            }
            i = i + 1;
        }
        proof {
            assert(rest@ =~= data@.drop_first());
        }
        match parse_u64_dec(&rest) {
            None => {
                proof {
                    if dec_valid(data@) && spec_dec(data@.drop_first()) <= u64::MAX {
                        assert(rest@.len() > 0);
                    }
                    if spec_dec(data@.drop_first()) > u64::MAX {
                        assert(spec_dec_signed(data@) < i64::MIN);
                    }
                }
                None
            },
            Some(m) => {
                if m > 0x8000_0000_0000_0000u64 {
                    proof {
                        assert(spec_dec_signed(data@) < i64::MIN);
                    }
                    None
                } else if m == 0x8000_0000_0000_0000u64 {
                    Some(i64::MIN)
                } else {
                    Some(-(m as i64))
                }
            },
        }
    } else {
        match parse_u64_dec(data) {
            None => None,
            Some(m) => {
                if m > 0x7fff_ffff_ffff_ffffu64 {
                    None
                } else {
                    Some(m as i64)
                }
            },
        }
    }
}

/// The signed reading of an unsigned 64-bit value.
pub open spec fn s64_of(n: nat) -> int {
    if n >= 0x8000_0000_0000_0000 {
        n - 0x1_0000_0000_0000_0000
    } else {
        n as int
    }
}

/// The signed reading of an unsigned 32-bit value.
pub open spec fn s32_of(n: nat) -> int {
    if n >= 0x8000_0000 {
        n - 0x1_0000_0000
    } else {
        n as int
    }
}

/// The signed reading of an unsigned 16-bit value.
pub open spec fn s16_of(n: nat) -> int {
    if n >= 0x8000 {
        n - 0x1_0000
    } else {
        n as int
    }
}

/// The signed reading of an unsigned 8-bit value.
pub open spec fn s8_of(n: nat) -> int {
    if n >= 0x80 {
        n - 0x100
    } else {
        n as int
    }
}

/// The unsigned carrier of a signed 64-bit value.
pub open spec fn u64_of(i: int) -> nat {
    if i >= 0 {
        i as nat
    } else {
        (i + 0x1_0000_0000_0000_0000) as nat
    }
}

/// The `n` big-endian bytes of `v`'s low bits.
pub open spec fn spec_be_bytes(v: nat, n: nat) -> Seq<u8>
    decreases n,
{
    if n == 0 {
        Seq::empty()
    } else {
        spec_be_bytes(v / 256, (n - 1) as nat).push((v % 256) as u8)
    }
}

/// Reading back the big-endian bytes of `v` gives `v`'s low bits.
pub proof fn lemma_be_roundtrip(v: nat, n: nat)
    ensures
        spec_be(spec_be_bytes(v, n)) == v % pow256(n),
    decreases n,
{
    if n == 0 {
        assert(pow256(0) == 1);
    } else {
        lemma_be_roundtrip(v / 256, (n - 1) as nat);
        let bs = spec_be_bytes(v, n);
        assert(bs.drop_last() =~= spec_be_bytes(v / 256, (n - 1) as nat));
        assert(pow256(0) == 1);
        lemma_pow256_monotone(0, (n - 1) as nat);
        assert(spec_be(bs) == ((v / 256) % pow256((n - 1) as nat)) * 256 + v % 256);
        assert(pow256(n) == 256 * pow256((n - 1) as nat));
        assert(((v / 256) % pow256((n - 1) as nat)) * 256 + v % 256 == v % (256 * pow256(
            (n - 1) as nat,
        ))) by (nonlinear_arith)
            requires
                pow256((n - 1) as nat) >= 1,
        ;
    }
}

/// Appends the `n` big-endian bytes of `v`'s low bits.
fn push_be_bytes(out: &mut Vec<u8>, v: u64, n: usize)
    requires
        n <= 8,
    ensures
        final(out)@ == old(out)@ + spec_be_bytes(v as nat, n as nat),
    decreases n,
{
    if n == 0 {
        proof {
            assert(final(out)@ =~= old(out)@ + spec_be_bytes(v as nat, 0));
        }
    } else {
        push_be_bytes(out, v / 256, n - 1);
        out.push((v % 256) as u8);
        proof {
            assert(final(out)@ =~= old(out)@ + spec_be_bytes(v as nat, n as nat));
        }
    }
}

/// Decoding a wire value into an integer.
pub trait Decode: Sized {
    /// What decoding yields: the integer, or the message explaining why the
    /// value cannot be this type.
    spec fn spec_decode(value: PgValue) -> Result<Self, Seq<char>>;

    /// Decodes the wire value.
    fn decode(value: PgValue) -> (r: Result<Self, String>)
        ensures
            match (r, Self::spec_decode(value)) {
                (Ok(v), Ok(sv)) => v == sv,
                (Err(m), Err(sm)) => m@ == sm,
                _ => false,
            },
    ;
}

/// Encoding an integer as wire bytes.
pub trait Encode: Sized {
    /// The bytes encoding appends: the value's big-endian form.
    spec fn spec_encode_bytes(self) -> Seq<u8>;

    /// Appends this value's wire bytes; the value is never SQL null.
    fn encode(self, buf: &mut PgArgumentBuffer) -> (r: Result<IsNull, String>)
        ensures
            r matches Ok(z) && z == IsNull::No,
            final(buf).data@ == old(buf).data@ + self.spec_encode_bytes(),
    ;
}

/// The wire type of an encoded argument.
pub trait TypeInfo {
    /// The wire type this value is sent as.
    fn type_info(&self) -> PgTypeInfo;
}

impl Decode for u64 {
    open spec fn spec_decode(value: PgValue) -> Result<u64, Seq<char>> {
        match value.format {
            PgValueFormat::Binary => if value.data@.len() >= 8 {
                Ok((spec_be(value.data@.subrange(0, 8)) as u64))
            } else {
                Err("error u64 bytes len"@)
            },
            PgValueFormat::Text => if value.data@.len() > 0 && all_digits(value.data@) && spec_dec(
                value.data@,
            ) <= u64::MAX {
                Ok((spec_dec(value.data@) as u64))
            } else {
                Err("error u64 text"@)
            },
        }
    }

    fn decode(value: PgValue) -> (r: Result<u64, String>) {
        match value.format {
            PgValueFormat::Binary => {
                if value.data.len() < 8 {
                    Err("error u64 bytes len".to_owned())
                } else {
                    proof {
                        lemma_be_bound(value.data@.subrange(0, 8));
                        reveal_with_fuel(pow256, 9);
                    }
                    Ok(be_read(&value.data, 8))
                }
            },
            PgValueFormat::Text => match parse_u64_dec(&value.data) {
                Some(v) => Ok(v),
                None => Err("error u64 text".to_owned()),
            },
        }
    }
}

impl Decode for u32 {
    open spec fn spec_decode(value: PgValue) -> Result<u32, Seq<char>> {
        match value.format {
            PgValueFormat::Binary => if value.data@.len() == 8 {
                Ok(((spec_be(value.data@.subrange(0, 8)) % 0x1_0000_0000) as u32))
            } else if value.data@.len() == 4 {
                Ok((spec_be(value.data@.subrange(0, 4)) as u32))
            } else {
                Err("error u32 bytes len"@)
            },
            PgValueFormat::Text => if value.data@.len() > 0 && all_digits(value.data@) && spec_dec(
                value.data@,
            ) <= u32::MAX {
                Ok((spec_dec(value.data@) as u32))
            } else {
                Err("error u32 text"@)
            },
        }
    }

    fn decode(value: PgValue) -> (r: Result<u32, String>) {
        match value.format {
            PgValueFormat::Binary => {
                if value.data.len() == 8 {
                    let u = be_read(&value.data, 8);
                    Ok((u % 0x1_0000_0000u64) as u32)
                } else if value.data.len() == 4 {
                    proof {
                        lemma_be_bound(value.data@.subrange(0, 4));
                        reveal_with_fuel(pow256, 9);
                    }
                    Ok(be_read(&value.data, 4) as u32)
                } else {
                    Err("error u32 bytes len".to_owned())
                }
            },
            PgValueFormat::Text => match parse_u64_dec(&value.data) {
                Some(v) => if v <= 0xffff_ffffu64 {
                    Ok(v as u32)
                } else {
                    Err("error u32 text".to_owned())
                },
                None => Err("error u32 text".to_owned()),
            },
        }
    }
}

impl Decode for u16 {
    open spec fn spec_decode(value: PgValue) -> Result<u16, Seq<char>> {
        match value.format {
            PgValueFormat::Binary => if value.data@.len() == 8 {
                Ok(((spec_be(value.data@.subrange(0, 8)) % 0x1_0000) as u16))
            } else if value.data@.len() == 4 {
                Ok(((spec_be(value.data@.subrange(0, 4)) % 0x1_0000) as u16))
            } else if value.data@.len() == 2 {
                Ok((spec_be(value.data@.subrange(0, 2)) as u16))
            } else {
                Err("error u16 bytes len"@)
            },
            PgValueFormat::Text => if value.data@.len() > 0 && all_digits(value.data@) && spec_dec(
                value.data@,
            ) <= u16::MAX {
                Ok((spec_dec(value.data@) as u16))
            } else {
                Err("error u16 text"@)
            },
        }
    }

    fn decode(value: PgValue) -> (r: Result<u16, String>) {
        match value.format {
            PgValueFormat::Binary => {
                if value.data.len() == 8 {
                    let u = be_read(&value.data, 8);
                    Ok((u % 0x1_0000u64) as u16)
                } else if value.data.len() == 4 {
                    let u = be_read(&value.data, 4);
                    Ok((u % 0x1_0000u64) as u16)
                } else if value.data.len() == 2 {
                    proof {
                        lemma_be_bound(value.data@.subrange(0, 2));
                        reveal_with_fuel(pow256, 9);
                    }
                    Ok(be_read(&value.data, 2) as u16)
                } else {
                    Err("error u16 bytes len".to_owned())
                }
            },
            PgValueFormat::Text => match parse_u64_dec(&value.data) {
                Some(v) => if v <= 0xffffu64 {
                    Ok(v as u16)
                } else {
                    Err("error u16 text".to_owned())
                },
                None => Err("error u16 text".to_owned()),
            },
        }
    }
}

impl Decode for u8 {
    open spec fn spec_decode(value: PgValue) -> Result<u8, Seq<char>> {
        if value.data@.len() > 0 {
            Ok(value.data@[0])
        } else {
            Ok(0u8)
        }
    }

    fn decode(value: PgValue) -> (r: Result<u8, String>) {
        if value.data.len() > 0 {
            Ok(value.data[0])
        } else {
            Ok(0)
        }
    }
}

impl Decode for i64 {
    open spec fn spec_decode(value: PgValue) -> Result<i64, Seq<char>> {
        match value.format {
            PgValueFormat::Binary => if value.data@.len() >= 8 {
                Ok((s64_of(spec_be(value.data@.subrange(0, 8))) as i64))
            } else {
                Err("error i64 bytes len"@)
            },
            PgValueFormat::Text => if dec_valid(value.data@) && i64::MIN <= spec_dec_signed(
                value.data@,
            ) <= i64::MAX {
                Ok((spec_dec_signed(value.data@) as i64))
            } else {
                Err("error i64 text"@)
            },
        }
    }

    fn decode(value: PgValue) -> (r: Result<i64, String>) {
        match value.format {
            PgValueFormat::Binary => {
                if value.data.len() < 8 {
                    Err("error i64 bytes len".to_owned())
                } else {
                    proof {
                        lemma_be_bound(value.data@.subrange(0, 8));
                        reveal_with_fuel(pow256, 9);
                    }
                    let u = be_read(&value.data, 8);
                    Ok(signed64(u))
                }
            },
            PgValueFormat::Text => match parse_i64_dec(&value.data) {
                Some(v) => Ok(v),
                None => Err("error i64 text".to_owned()),
            },
        }
    }
}

/// The signed reading of an unsigned 64-bit value.
fn signed64(u: u64) -> (r: i64)
    ensures
        r as int == s64_of(u as nat),
{
    if u >= 0x8000_0000_0000_0000u64 {
        let d = u - 0x8000_0000_0000_0000u64;
        (-(0x7fff_ffff_ffff_ffffi64 - (d as i64))) - 1
    } else {
        u as i64
    }
}

impl Decode for i32 {
    open spec fn spec_decode(value: PgValue) -> Result<i32, Seq<char>> {
        match value.format {
            PgValueFormat::Binary => if value.data@.len() == 8 {
                Ok((s32_of(spec_be(value.data@.subrange(0, 8)) % 0x1_0000_0000) as i32))
            } else if value.data@.len() == 4 {
                Ok((s32_of(spec_be(value.data@.subrange(0, 4))) as i32))
            } else {
                Err("error i32 bytes len"@)
            },
            PgValueFormat::Text => if dec_valid(value.data@) && i32::MIN <= spec_dec_signed(
                value.data@,
            ) <= i32::MAX {
                Ok((spec_dec_signed(value.data@) as i32))
            } else {
                Err("error i32 text"@)
            },
        }
    }

    fn decode(value: PgValue) -> (r: Result<i32, String>) {
        match value.format {
            PgValueFormat::Binary => {
                if value.data.len() == 8 {
                    let u = be_read(&value.data, 8);
                    Ok(signed32((u % 0x1_0000_0000u64) as u32))
                } else if value.data.len() == 4 {
                    proof {
                        lemma_be_bound(value.data@.subrange(0, 4));
                        reveal_with_fuel(pow256, 9);
                    }
                    let u = be_read(&value.data, 4);
                    Ok(signed32(u as u32))
                } else {
                    Err("error i32 bytes len".to_owned())
                }
            },
            PgValueFormat::Text => match parse_i64_dec(&value.data) {
                Some(v) => if -0x8000_0000i64 <= v && v <= 0x7fff_ffffi64 {
                    Ok(v as i32)
                } else {
                    Err("error i32 text".to_owned())
                },
                None => Err("error i32 text".to_owned()),
            },
        }
    }
}

/// The signed reading of an unsigned 32-bit value.
fn signed32(u: u32) -> (r: i32)
    ensures
        r as int == s32_of(u as nat),
{
    if u >= 0x8000_0000u32 {
        let d = u - 0x8000_0000u32;
        (-(0x7fff_ffffi32 - (d as i32))) - 1
    } else {
        u as i32
    }
}

impl Decode for i16 {
    open spec fn spec_decode(value: PgValue) -> Result<i16, Seq<char>> {
        match value.format {
            PgValueFormat::Binary => if value.data@.len() == 8 {
                Ok((s16_of(spec_be(value.data@.subrange(0, 8)) % 0x1_0000) as i16))
            } else if value.data@.len() == 4 {
                Ok((s16_of(spec_be(value.data@.subrange(0, 4)) % 0x1_0000) as i16))
            } else if value.data@.len() == 2 {
                Ok((s16_of(spec_be(value.data@.subrange(0, 2))) as i16))
            } else {
                Err("error i16 bytes len"@)
            },
            PgValueFormat::Text => if dec_valid(value.data@) && i16::MIN <= spec_dec_signed(
                value.data@,
            ) <= i16::MAX {
                Ok((spec_dec_signed(value.data@) as i16))
            } else {
                Err("error i16 text"@)
            },
        }
    }

    fn decode(value: PgValue) -> (r: Result<i16, String>) {
        match value.format {
            PgValueFormat::Binary => {
                if value.data.len() == 8 {
                    let u = be_read(&value.data, 8);
                    Ok(signed16((u % 0x1_0000u64) as u16))
                } else if value.data.len() == 4 {
                    let u = be_read(&value.data, 4);
                    Ok(signed16((u % 0x1_0000u64) as u16))
                } else if value.data.len() == 2 {
                    proof {
                        lemma_be_bound(value.data@.subrange(0, 2));
                        reveal_with_fuel(pow256, 9);
                    }
                    let u = be_read(&value.data, 2);
                    Ok(signed16(u as u16))
                } else {
                    Err("error i16 bytes len".to_owned())
                }
            },
            PgValueFormat::Text => match parse_i64_dec(&value.data) {
                Some(v) => if -0x8000i64 <= v && v <= 0x7fffi64 {
                    Ok(v as i16)
                } else {
                    Err("error i16 text".to_owned())
                },
                None => Err("error i16 text".to_owned()),
            },
        }
    }
}

/// The signed reading of an unsigned 16-bit value.
fn signed16(u: u16) -> (r: i16)
    ensures
        r as int == s16_of(u as nat),
{
    if u >= 0x8000u16 {
        let d = u - 0x8000u16;
        (-(0x7fffi16 - (d as i16))) - 1
    } else {
        u as i16
    }
}

impl Decode for i8 {
    open spec fn spec_decode(value: PgValue) -> Result<i8, Seq<char>> {
        if value.data@.len() > 0 {
            Ok((s8_of(value.data@[0] as nat) as i8))
        } else {
            Ok(0i8)
        }
    }

    fn decode(value: PgValue) -> (r: Result<i8, String>) {
        if value.data.len() > 0 {
            let u = value.data[0];
            if u >= 0x80u8 {
                let d = u - 0x80u8;
                Ok((-(0x7fi8 - (d as i8))) - 1)
            } else {
                Ok(u as i8)
            }
        } else {
            Ok(0)
        }
    }
}

impl Encode for u64 {
    open spec fn spec_encode_bytes(self) -> Seq<u8> {
        spec_be_bytes(self as nat, 8)
    }

    fn encode(self, buf: &mut PgArgumentBuffer) -> (r: Result<IsNull, String>) {
        push_be_bytes(&mut buf.data, self, 8);
        Ok(IsNull::No)
    }
}

impl Encode for u32 {
    open spec fn spec_encode_bytes(self) -> Seq<u8> {
        spec_be_bytes(self as nat, 4)
    }

    fn encode(self, buf: &mut PgArgumentBuffer) -> (r: Result<IsNull, String>) {
        push_be_bytes(&mut buf.data, self as u64, 4);
        Ok(IsNull::No)
    }
}

impl Encode for u16 {
    open spec fn spec_encode_bytes(self) -> Seq<u8> {
        spec_be_bytes(self as nat, 2)
    }

    fn encode(self, buf: &mut PgArgumentBuffer) -> (r: Result<IsNull, String>) {
        push_be_bytes(&mut buf.data, self as u64, 2);
        Ok(IsNull::No)
    }
}

impl Encode for u8 {
    open spec fn spec_encode_bytes(self) -> Seq<u8> {
        spec_be_bytes(self as nat, 1)
    }

    fn encode(self, buf: &mut PgArgumentBuffer) -> (r: Result<IsNull, String>) {
        push_be_bytes(&mut buf.data, self as u64, 1);
        Ok(IsNull::No)
    }
}

/// The unsigned 64-bit carrier of a signed value.
fn unsigned64(i: i64) -> (r: u64)
    ensures
        r as nat == u64_of(i as int),
{
    if i >= 0 {
        i as u64
    } else {
        ((i + 1 + 0x7fff_ffff_ffff_ffffi64) as u64) + 0x8000_0000_0000_0000u64
    }
}

impl Encode for i64 {
    open spec fn spec_encode_bytes(self) -> Seq<u8> {
        spec_be_bytes(u64_of(self as int), 8)
    }

    fn encode(self, buf: &mut PgArgumentBuffer) -> (r: Result<IsNull, String>) {
        push_be_bytes(&mut buf.data, unsigned64(self), 8);
        Ok(IsNull::No)
    }
}

impl Encode for i32 {
    open spec fn spec_encode_bytes(self) -> Seq<u8> {
        spec_be_bytes(
            if self >= 0 {
                self as nat
            } else {
                (self + 0x1_0000_0000) as nat
            },
            4,
        )
    }

    fn encode(self, buf: &mut PgArgumentBuffer) -> (r: Result<IsNull, String>) {
        let u: u64 = if self >= 0 {
            self as u64
        } else {
            ((self + 1 + 0x7fff_ffffi32) as u64) + 0x8000_0000u64
        };
        push_be_bytes(&mut buf.data, u, 4);
        Ok(IsNull::No)
    }
}

impl Encode for i16 {
    open spec fn spec_encode_bytes(self) -> Seq<u8> {
        spec_be_bytes(
            if self >= 0 {
                self as nat
            } else {
                (self + 0x1_0000) as nat
            },
            2,
        )
    }

    fn encode(self, buf: &mut PgArgumentBuffer) -> (r: Result<IsNull, String>) {
        let u: u64 = if self >= 0 {
            self as u64
        } else {
            ((self + 1 + 0x7fffi16) as u64) + 0x8000u64
        };
        push_be_bytes(&mut buf.data, u, 2);
        Ok(IsNull::No)
    }
}

impl Encode for i8 {
    open spec fn spec_encode_bytes(self) -> Seq<u8> {
        spec_be_bytes(
            if self >= 0 {
                self as nat
            } else {
                (self + 0x100) as nat
            },
            1,
        )
    }

    fn encode(self, buf: &mut PgArgumentBuffer) -> (r: Result<IsNull, String>) {
        let u: u64 = if self >= 0 {
            self as u64
        } else {
            ((self + 1 + 0x7fi8) as u64) + 0x80u64
        };
        push_be_bytes(&mut buf.data, u, 1);
        Ok(IsNull::No)
    }
}

impl TypeInfo for i8 {
    fn type_info(&self) -> PgTypeInfo {
        PgTypeInfo::Bytea
    }
}

} // verus!
