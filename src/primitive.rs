//! Bit-width integers, the primitive codec and its error kinds.
use vstd::prelude::*;

verus! {

/// Why decoding an event failed.
#[derive(Clone, Copy, Debug, PartialEq, Eq, Structural)]
pub enum ErrorKind {
    /// Fewer bytes remain than the construct being read requires.
    ShortInput,
    /// A 7-bit position holds a byte with its high bit set, a variable-length
    /// quantity runs past four bytes, or a fixed-width field is out of range.
    MalformedInteger,
    /// A data byte starts an event while no running status is active.
    MissingRunningStatus,
    /// The status byte belongs to no event family.
    InvalidStatus,
    /// A meta event's payload length differs from the one its type requires.
    MetaLengthMismatch,
    /// A meta event's type byte is not a known type.
    UnknownMetaType,
}

/// `old` holds `new` after its first `n` bytes.
pub open spec fn advanced(old: Seq<u8>, new: Seq<u8>, n: nat) -> bool {
    n <= old.len() && new == old.subrange(n as int, old.len() as int)
}

/// Advancing by `n` and then by `m` bytes advances by `n + m`.
pub proof fn lemma_advanced_trans(a: Seq<u8>, b: Seq<u8>, c: Seq<u8>, n: nat, m: nat)
    requires
        advanced(a, b, n),
        advanced(b, c, m),
    ensures
        advanced(a, c, n + m),
{
    assert(c =~= a.subrange((n + m) as int, a.len() as int));
}

/// A 4-bit unsigned integer (a channel number).
#[allow(non_camel_case_types)]
#[derive(Clone, Copy, Debug, PartialEq, Eq, Structural, Hash)]
pub struct u4(u8);

/// A 7-bit unsigned integer (keys, velocities, controllers, programs, ports).
#[allow(non_camel_case_types)]
#[derive(Clone, Copy, Debug, PartialEq, Eq, Structural, Hash)]
pub struct u7(u8);

/// A 14-bit unsigned integer (pitch bend).
#[allow(non_camel_case_types)]
#[derive(Clone, Copy, Debug, PartialEq, Eq, Structural, Hash)]
pub struct u14(u16);

/// A 24-bit unsigned integer (tempo).
#[allow(non_camel_case_types)]
#[derive(Clone, Copy, Debug, PartialEq, Eq, Structural, Hash)]
pub struct u24(u32);

/// A 28-bit unsigned integer (delta time).
#[allow(non_camel_case_types)]
#[derive(Clone, Copy, Debug, PartialEq, Eq, Structural, Hash)]
pub struct u28(u32);

impl View for u4 {
    type V = nat;

    closed spec fn view(&self) -> nat {
        self.0 as nat
    }
}

impl View for u7 {
    type V = nat;

    closed spec fn view(&self) -> nat {
        self.0 as nat
    }
}

impl View for u14 {
    type V = nat;

    closed spec fn view(&self) -> nat {
        self.0 as nat
    }
}

impl View for u24 {
    type V = nat;

    closed spec fn view(&self) -> nat {
        self.0 as nat
    }
}

impl View for u28 {
    type V = nat;

    closed spec fn view(&self) -> nat {
        self.0 as nat
    }
}

impl u4 {
    #[verifier::type_invariant]
    spec fn inv(&self) -> bool {
        self.0 < 16
    }

    /// The value if it fits in 4 bits.
    pub fn new(v: u8) -> (r: Option<u4>)
        ensures
            r is Some <==> v < 16,
            r is Some ==> r.unwrap()@ == v,
    {
        if v < 16 {
            Some(u4(v))
        } else {
            None
        }
    }

    /// The low four bits of `b`.
    pub fn from_low_nibble(b: u8) -> (r: u4)
        ensures
            r@ == b % 16,
    {
        u4(b % 16)
    }

    pub fn as_int(&self) -> (r: u8)
        ensures
            r as nat == self@,
            r < 16,
    {
        proof {
            use_type_invariant(self);
        }
        self.0
    }
}

impl u7 {
    #[verifier::type_invariant]
    spec fn inv(&self) -> bool {
        self.0 < 128
    }

    /// The value if it fits in 7 bits.
    pub fn new(v: u8) -> (r: Option<u7>)
        ensures
            r is Some <==> v < 128,
            r is Some ==> r.unwrap()@ == v,
    {
        if v < 128 {
            Some(u7(v))
        } else {
            None
        }
    }

    pub fn as_int(&self) -> (r: u8)
        ensures
            r as nat == self@,
            r < 128,
    {
        proof {
            use_type_invariant(self);
        }
        self.0
    }

    /// Reads one byte, which must have its high bit clear.
    pub fn read<'a>(raw: &mut &'a [u8]) -> (r: Result<u7, ErrorKind>)
        ensures
            spec_u7(old(raw)@) == (match r {
                Ok(v) => Ok(v@),
                Err(e) => Err(e),
            }),
            r is Ok ==> advanced(old(raw)@, final(raw)@, 1),
    {
        let b = read_u8(raw)?;
        match u7::new(b) {
            Some(v) => Ok(v),
            None => Err(ErrorKind::MalformedInteger),
        }
    }
}

impl u14 {
    #[verifier::type_invariant]
    spec fn inv(&self) -> bool {
        self.0 < 0x4000
    }

    /// The value if it fits in 14 bits.
    pub fn new(v: u16) -> (r: Option<u14>)
        ensures
            r is Some <==> v < 0x4000,
            r is Some ==> r.unwrap()@ == v,
    {
        if v < 0x4000 {
            Some(u14(v))
        } else {
            None
        }
    }

    pub fn as_int(&self) -> (r: u16)
        ensures
            r as nat == self@,
            r < 0x4000,
    {
        proof {
            use_type_invariant(self);
        }
        self.0
    }

    /// Reads two 7-bit bytes: the first gives the low 7 bits, the second the
    /// high 7 bits.
    pub fn read_u7<'a>(raw: &mut &'a [u8]) -> (r: Result<u14, ErrorKind>)
        ensures
            spec_u14(old(raw)@) == (match r {
                Ok(v) => Ok(v@),
                Err(e) => Err(e),
            }),
            r is Ok ==> advanced(old(raw)@, final(raw)@, 2),
    {
        let ghost s0 = raw@;
        let lo = u7::read(raw)?;
        let ghost s1 = raw@;
        assert(s1 == s0.drop_first());
        let hi = u7::read(raw)?;
        proof {
            lemma_advanced_trans(s0, s1, raw@, 1, 1);
        }
        let l = lo.as_int() as u16;
        let h = hi.as_int() as u16;
        Ok(u14(h * 128 + l))
    }
}

impl u24 {
    #[verifier::type_invariant]
    spec fn inv(&self) -> bool {
        self.0 < 0x100_0000
    }

    /// The value if it fits in 24 bits.
    pub fn new(v: u32) -> (r: Option<u24>)
        ensures
            r is Some <==> v < 0x100_0000,
            r is Some ==> r.unwrap()@ == v,
    {
        if v < 0x100_0000 {
            Some(u24(v))
        } else {
            None
        }
    }

    pub fn as_int(&self) -> (r: u32)
        ensures
            r as nat == self@,
            r < 0x100_0000,
    {
        proof {
            use_type_invariant(self);
        }
        self.0
    }

    /// Reads three bytes as a big-endian integer.
    pub fn read<'a>(raw: &mut &'a [u8]) -> (r: Result<u24, ErrorKind>)
        ensures
            (r is Ok <==> old(raw)@.len() >= 3),
            r is Ok ==> r.unwrap()@ == be24(old(raw)@) && advanced(old(raw)@, final(raw)@, 3),
            r is Err ==> r->Err_0 == ErrorKind::ShortInput,
    {
        let ghost s0 = raw@;
        let a = read_u8(raw)?;
        let ghost s1 = raw@;
        let b = read_u8(raw)?;
        let ghost s2 = raw@;
        let c = read_u8(raw)?;
        proof {
            lemma_advanced_trans(s0, s1, s2, 1, 1);
            lemma_advanced_trans(s0, s2, raw@, 2, 1);
        }
        Ok(u24((a as u32) * 65536 + (b as u32) * 256 + c as u32))
    }
}

impl u28 {
    #[verifier::type_invariant]
    spec fn inv(&self) -> bool {
        self.0 < 0x1000_0000
    }

    /// The value if it fits in 28 bits.
    pub fn new(v: u32) -> (r: Option<u28>)
        ensures
            r is Some <==> v < 0x1000_0000,
            r is Some ==> r.unwrap()@ == v,
    {
        if v < 0x1000_0000 {
            Some(u28(v))
        } else {
            None
        }
    }

    pub fn as_int(&self) -> (r: u32)
        ensures
            r as nat == self@,
            r < 0x1000_0000,
    {
        proof {
            use_type_invariant(self);
        }
        self.0
    }

    /// Reads a variable-length quantity: one to four bytes, seven bits of
    /// payload each, most significant first, high bit set on all but the last.
    pub fn read_u7<'a>(raw: &mut &'a [u8]) -> (r: Result<u28, ErrorKind>)
        ensures
            match spec_vlq(old(raw)@) {
                Ok((v, n)) => r is Ok && r.unwrap()@ == v && advanced(old(raw)@, final(raw)@, n),
                Err(e) => r is Err && r->Err_0 == e,
            },
    {
        let ghost s0 = raw@;
        let mut acc: u32 = 0;
        let mut i: usize = 0;
        assert(s0 =~= s0.subrange(0, s0.len() as int));
        while i < 4
            invariant
                i <= 4,
                i == 0 ==> acc == 0,
                i <= 1 ==> acc < 0x80,
                i <= 2 ==> acc < 0x4000,
                i <= 3 ==> acc < 0x20_0000,
                advanced(s0, raw@, i as nat),
                vlq_scan(s0, i as nat, acc as nat) == spec_vlq(s0),
                s0 == old(raw)@,
            decreases 4 - i,
        {
            let ghost si = raw@;
            let b = match read_u8(raw) {
                Ok(b) => b,
                Err(e) => {
                    assert(s0.len() == i);
                    return Err(e);
                },
            };
            proof {
                assert(s0[i as int] == si[0]);
                lemma_advanced_trans(s0, si, raw@, i as nat, 1);
            }
            if b < 0x80 {
                return Ok(u28(acc * 0x80 + b as u32));
            }
            acc = acc * 0x80 + (b - 0x80) as u32;
            i = i + 1;
        }
        Err(ErrorKind::MalformedInteger)
    }

    /// Encodes the value as a variable-length quantity.
    pub fn write_varlen(&self) -> (r: Vec<u8>)
        ensures
            r@ == vlq_encode(self@),
    {
        let n = self.as_int();
        let mut out: Vec<u8> = Vec::new();
        if n >= 0x20_0000 {
            out.push((0x80 + n / 0x20_0000) as u8);
        }
        if n >= 0x4000 {
            out.push((0x80 + (n / 0x4000) % 0x80) as u8);
        }
        if n >= 0x80 {
            out.push((0x80 + (n / 0x80) % 0x80) as u8);
        }
        out.push((n % 0x80) as u8);
        proof {
            assert(out@ =~= vlq_encode(n as nat));
        }
        out
    }
}

/// Decodes a variable-length quantity from `s` at index `i`, with `acc` the
/// value of the digits before it: the value and the index past its last byte.
pub open spec fn vlq_scan(s: Seq<u8>, i: nat, acc: nat) -> Result<(nat, nat), ErrorKind>
    decreases 4 - i,
{
    if i >= 4 {
        Err(ErrorKind::MalformedInteger)
    } else if i >= s.len() {
        Err(ErrorKind::ShortInput)
    } else if s[i as int] < 0x80 {
        Ok((acc * 0x80 + s[i as int] as nat, i + 1))
    } else {
        vlq_scan(s, i + 1, acc * 0x80 + (s[i as int] - 0x80) as nat)
    }
}

/// A successful scan from index `i` ends past `i`, within `s`, after at most
/// four bytes.
pub proof fn lemma_vlq_scan_len(s: Seq<u8>, i: nat, acc: nat)
    requires
        vlq_scan(s, i, acc) is Ok,
    ensures
        i < vlq_scan(s, i, acc).unwrap().1 <= s.len(),
        vlq_scan(s, i, acc).unwrap().1 <= 4,
    decreases 4 - i,
{
    if i < 4 && i < s.len() && s[i as int] >= 0x80 {
        lemma_vlq_scan_len(s, i + 1, acc * 0x80 + (s[i as int] - 0x80) as nat);
    }
}

/// The variable-length quantity at the front of `s`: its value and its
/// length in bytes.
pub open spec fn spec_vlq(s: Seq<u8>) -> Result<(nat, nat), ErrorKind> {
    vlq_scan(s, 0, 0)
}

/// The shortest variable-length encoding of `n`.
pub open spec fn vlq_encode(n: nat) -> Seq<u8> {
    if n < 0x80 {
        seq![n as u8]
    } else if n < 0x4000 {
        seq![(0x80 + n / 0x80) as u8, (n % 0x80) as u8]
    } else if n < 0x20_0000 {
        seq![(0x80 + n / 0x4000) as u8, (0x80 + (n / 0x80) % 0x80) as u8, (n % 0x80) as u8]
    } else {
        seq![
            (0x80 + n / 0x20_0000) as u8,
            (0x80 + (n / 0x4000) % 0x80) as u8,
            (0x80 + (n / 0x80) % 0x80) as u8,
            (n % 0x80) as u8,
        ]
    }
}

/// Every 28-bit value, encoded as a variable-length quantity and decoded
/// again, gives itself back, whatever bytes follow the encoding; the encoding
/// takes one to four bytes.
pub proof fn lemma_vlq_round_trip(n: nat, rest: Seq<u8>)
    requires
        n < 0x1000_0000,
    ensures
        1 <= vlq_encode(n).len() <= 4,
        spec_vlq(vlq_encode(n) + rest) == Ok::<(nat, nat), ErrorKind>((n, vlq_encode(n).len())),
{
    let e = vlq_encode(n);
    let s = e + rest;
    assert(n == (n / 0x80) * 0x80 + n % 0x80) by (nonlinear_arith);
    assert(n / 0x80 == ((n / 0x80) / 0x80) * 0x80 + (n / 0x80) % 0x80) by (nonlinear_arith);
    assert(n / 0x4000 == (n / 0x80) / 0x80) by (nonlinear_arith);
    assert(n / 0x4000 == ((n / 0x4000) / 0x80) * 0x80 + (n / 0x4000) % 0x80) by (nonlinear_arith);
    assert(n / 0x20_0000 == (n / 0x4000) / 0x80) by (nonlinear_arith);
    assert(n < 0x4000 ==> n / 0x80 < 0x80) by (nonlinear_arith);
    assert(n < 0x20_0000 ==> n / 0x4000 < 0x80) by (nonlinear_arith);
    assert(n / 0x20_0000 < 0x80) by (nonlinear_arith)
        requires n < 0x1000_0000;
    assert(s[0] == e[0]);
    assert(e.len() >= 2 ==> s[1] == e[1]);
    assert(e.len() >= 3 ==> s[2] == e[2]);
    assert(e.len() >= 4 ==> s[3] == e[3]);
    reveal_with_fuel(vlq_scan, 5);
}

/// Reads a variable-length quantity `n`, then the `n` bytes after it.
pub open spec fn spec_varlen_slice(s: Seq<u8>) -> Result<(Seq<u8>, nat), ErrorKind> {
    match spec_vlq(s) {
        Err(e) => Err(e),
        Ok((n, k)) => if k + n > s.len() {
            Err(ErrorKind::ShortInput)
        } else {
            Ok((s.subrange(k as int, (k + n) as int), k + n))
        },
    }
}

/// Reads a length as a variable-length quantity, then borrows that many
/// bytes from the input.
pub fn read_varlen_slice<'a>(raw: &mut &'a [u8]) -> (r: Result<&'a [u8], ErrorKind>)
    ensures
        match spec_varlen_slice(old(raw)@) {
            Ok((d, n)) => r is Ok && r.unwrap()@ == d && advanced(old(raw)@, final(raw)@, n),
            Err(e) => r is Err && r->Err_0 == e,
        },
{
    let ghost s0 = raw@;
    let len = u28::read_u7(raw)?;
    let len = len.as_int() as usize;
    if raw.len() < len {
        return Err(ErrorKind::ShortInput);
    }
    let (data, tail) = raw.split_at(len);
    proof {
        let k = (s0.len() - raw@.len()) as nat;
        assert(data@ =~= s0.subrange(k as int, (k + len) as int));
        lemma_advanced_trans(s0, raw@, tail@, k, len as nat);
    }
    *raw = tail;
    Ok(data)
}

/// A frame rate of SMPTE time code.
#[derive(Clone, Copy, Debug, PartialEq, Eq, Structural, Hash)]
pub enum Fps {
    Fps24,
    Fps25,
    /// 29.97 frames per second, drop frame.
    Fps29,
    Fps30,
}

/// The frame rate that a two-bit code selects.
pub open spec fn spec_fps(code: nat) -> Fps {
    if code == 0 {
        Fps::Fps24
    } else if code == 1 {
        Fps::Fps25
    } else if code == 2 {
        Fps::Fps29
    } else {
        Fps::Fps30
    }
}

/// An SMPTE time, kept as its five bytes: hours (with the frame rate in the
/// top two bits), minutes, seconds, frames and hundredths of a frame.
#[derive(Clone, Copy, Debug, PartialEq, Eq, Structural, Hash)]
pub struct SmpteTime {
    pub hr: u8,
    pub mn: u8,
    pub se: u8,
    pub fr: u8,
    pub ff: u8,
}

/// The SMPTE time in the first five bytes of `s`.
pub open spec fn spec_smpte(s: Seq<u8>) -> SmpteTime {
    SmpteTime { hr: s[0], mn: s[1], se: s[2], fr: s[3], ff: s[4] }
}

impl SmpteTime {
    /// Reads five bytes.
    pub fn read<'a>(raw: &mut &'a [u8]) -> (r: Result<SmpteTime, ErrorKind>)
        ensures
            (r is Ok <==> old(raw)@.len() >= 5),
            r is Ok ==> r.unwrap() == spec_smpte(old(raw)@) && advanced(old(raw)@, final(raw)@, 5),
            r is Err ==> r->Err_0 == ErrorKind::ShortInput,
    {
        if raw.len() < 5 {
            return Err(ErrorKind::ShortInput);
        }
        let t = SmpteTime { hr: raw[0], mn: raw[1], se: raw[2], fr: raw[3], ff: raw[4] };
        let (_, tail) = raw.split_at(5);
        *raw = tail;
        Ok(t)
    }

    /// The hour, from the low five bits of the hour byte.
    pub fn hour(&self) -> (r: u8)
        ensures
            r == self.hr % 32,
    {
        self.hr % 32
    }

    /// The frame rate, from the top two bits of the hour byte.
    pub fn fps(&self) -> (r: Fps)
        ensures
            r == spec_fps(self.hr as nat / 64),
    {
        let code = self.hr / 64;
        if code == 0 {
            Fps::Fps24
        } else if code == 1 {
            Fps::Fps25
        } else if code == 2 {
            Fps::Fps29
        } else {
            Fps::Fps30
        }
    }
}

/// A 7-bit byte at the front of `s`.
pub open spec fn spec_u7(s: Seq<u8>) -> Result<nat, ErrorKind> {
    if s.len() < 1 {
        Err(ErrorKind::ShortInput)
    } else if s[0] >= 128 {
        Err(ErrorKind::MalformedInteger)
    } else {
        Ok(s[0] as nat)
    }
}

/// Two 7-bit bytes at the front of `s`, least significant first.
pub open spec fn spec_u14(s: Seq<u8>) -> Result<nat, ErrorKind> {
    match spec_u7(s) {
        Err(e) => Err(e),
        Ok(lo) => match spec_u7(s.drop_first()) {
            Err(e) => Err(e),
            Ok(hi) => Ok(hi * 128 + lo),
        },
    }
}

/// The big-endian integer in the first two bytes of `s`.
pub open spec fn be16(s: Seq<u8>) -> nat {
    s[0] as nat * 256 + s[1] as nat
}

/// The big-endian integer in the first three bytes of `s`.
pub open spec fn be24(s: Seq<u8>) -> nat {
    s[0] as nat * 65536 + s[1] as nat * 256 + s[2] as nat
}

/// Reads one byte.
pub fn read_u8<'a>(raw: &mut &'a [u8]) -> (r: Result<u8, ErrorKind>)
    ensures
        (r is Ok <==> old(raw)@.len() >= 1),
        r is Ok ==> r.unwrap() == old(raw)@[0] && advanced(old(raw)@, final(raw)@, 1),
        r is Err ==> r->Err_0 == ErrorKind::ShortInput,
{
    if raw.len() == 0 {
        return Err(ErrorKind::ShortInput);
    }
    let b = raw[0];
    let (_, tail) = raw.split_at(1);
    *raw = tail;
    Ok(b)
}

/// Reads two bytes as a big-endian integer.
pub fn read_u16<'a>(raw: &mut &'a [u8]) -> (r: Result<u16, ErrorKind>)
    ensures
        (r is Ok <==> old(raw)@.len() >= 2),
        r is Ok ==> r.unwrap() == be16(old(raw)@) && advanced(old(raw)@, final(raw)@, 2),
        r is Err ==> r->Err_0 == ErrorKind::ShortInput,
{
    let ghost s0 = raw@;
    let a = read_u8(raw)?;
    let ghost s1 = raw@;
    let b = read_u8(raw)?;
    proof {
        lemma_advanced_trans(s0, s1, raw@, 1, 1);
    }
    Ok((a as u16) * 256 + b as u16)
}

} // verus!
