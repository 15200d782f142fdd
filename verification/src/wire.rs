use vstd::prelude::*;
use vstd::slice::slice_subrange;
use vstd::slice::slice_to_vec;

verus! {

// Primitive value encodings of the wire format: little-endian base-128
// varints and little-endian fixed-width integers, then the field layer
// (tag, wire type, payload) that every message is a sequence of.

pub open spec fn pow_n(base: nat, k: nat) -> nat
    decreases k,
{
    if k == 0 {
        1
    } else {
        base * pow_n(base, (k - 1) as nat)
    }
}

pub open spec fn varint(n: nat) -> Seq<u8>
    decreases n,
{
    if n < 128 {
        seq![n as u8]
    } else {
        seq![(n % 128 + 128) as u8] + varint(n / 128)
    }
}

/// Parses a varint from the front of `s`, reading at most `fuel` bytes;
/// yields the value and the number of bytes consumed.
pub open spec fn parse_varint(s: Seq<u8>, fuel: nat) -> Option<(nat, int)>
    decreases fuel,
{
    if fuel == 0 || s.len() == 0 {
        None
    } else {
        let b = s[0];
        if b < 128 {
            Some((b as nat, 1int))
        } else {
            match parse_varint(s.skip(1), (fuel - 1) as nat) {
                Some(vc) => Some((((b - 128) as nat + 128 * vc.0) as nat, vc.1 + 1)),
                None => None,
            }
        }
    }
}

/// A varint of at most ten bytes whose value fits in a `u64`; anything
/// else is rejected as malformed.
pub open spec fn parse_u64(s: Seq<u8>) -> Option<(u64, int)> {
    match parse_varint(s, 10) {
        Some(vc) => if vc.0 <= u64::MAX as nat {
            Some((vc.0 as u64, vc.1))
        } else {
            None
        },
        None => None,
    }
}

pub proof fn lemma_parse_varint_bounds(s: Seq<u8>, fuel: nat)
    ensures
        parse_varint(s, fuel) matches Some(vc) ==> 1 <= vc.1 <= fuel && vc.1 <= s.len(),
    decreases fuel,
{
    if fuel > 0 && s.len() > 0 && s[0] >= 128 {
        lemma_parse_varint_bounds(s.skip(1), (fuel - 1) as nat);
    }
}

pub proof fn lemma_parse_u64_bounds(s: Seq<u8>)
    ensures
        parse_u64(s) matches Some(vc) ==> 1 <= vc.1 <= 10 && vc.1 <= s.len(),
{
    lemma_parse_varint_bounds(s, 10);
}

proof fn lemma_varint_parse_rec(n: nat, rest: Seq<u8>, fuel: nat)
    requires
        fuel >= 1,
        n < pow_n(128, fuel),
    ensures
        1 <= varint(n).len() <= fuel,
        parse_varint(varint(n) + rest, fuel) == Some((n, varint(n).len() as int)),
    decreases n,
{
    let s = varint(n) + rest;
    if n < 128 {
        assert(s[0] == n as u8);
    } else {
        let m = n / 128;
        assert(pow_n(128, fuel) == 128 * pow_n(128, (fuel - 1) as nat));
        assert(m < pow_n(128, (fuel - 1) as nat)) by (nonlinear_arith)
            requires
                n < 128 * pow_n(128, (fuel - 1) as nat),
                m == n / 128,
        ;
        if fuel == 1 {
            assert(pow_n(128, 1) == 128 * pow_n(128, 0));
            assert(false);
        }
        lemma_varint_parse_rec(m, rest, (fuel - 1) as nat);
        assert(s.skip(1) =~= varint(m) + rest);
        assert(s[0] == (n % 128 + 128) as u8);
        assert(n % 128 + 128 * (n / 128) == n) by (nonlinear_arith);
    }
}

pub proof fn lemma_varint_parse(n: nat, rest: Seq<u8>)
    requires
        n <= u64::MAX as nat,
    ensures
        1 <= varint(n).len() <= 10,
        parse_u64(varint(n) + rest) == Some((n as u64, varint(n).len() as int)),
{
    lemma_pow128_10();
    lemma_varint_parse_rec(n, rest, 10);
}

proof fn lemma_pow128_10()
    ensures
        pow_n(128, 10) > u64::MAX as nat,
{
    reveal_with_fuel(pow_n, 11);
}

pub open spec fn le_bytes(n: nat, k: nat) -> Seq<u8>
    decreases k,
{
    if k == 0 {
        Seq::empty()
    } else {
        seq![(n % 256) as u8] + le_bytes(n / 256, (k - 1) as nat)
    }
}

pub open spec fn le_val(s: Seq<u8>) -> nat
    decreases s.len(),
{
    if s.len() == 0 {
        0
    } else {
        s[0] as nat + 256 * le_val(s.skip(1))
    }
}

pub proof fn lemma_le_bytes_len(n: nat, k: nat)
    ensures
        le_bytes(n, k).len() == k,
    decreases k,
{
    if k > 0 {
        lemma_le_bytes_len(n / 256, (k - 1) as nat);
    }
}

pub proof fn lemma_le_round_trip(n: nat, k: nat)
    requires
        n < pow_n(256, k),
    ensures
        le_val(le_bytes(n, k)) == n,
    decreases k,
{
    if k == 0 {
    } else {
        let m = n / 256;
        assert(pow_n(256, k) == 256 * pow_n(256, (k - 1) as nat));
        assert(m < pow_n(256, (k - 1) as nat)) by (nonlinear_arith)
            requires
                n < 256 * pow_n(256, (k - 1) as nat),
                m == n / 256,
        ;
        lemma_le_round_trip(m, (k - 1) as nat);
        lemma_le_bytes_len(n, k);
        assert(le_bytes(n, k).skip(1) =~= le_bytes(m, (k - 1) as nat));
        assert(n % 256 + 256 * (n / 256) == n) by (nonlinear_arith);
    }
}

pub proof fn lemma_le_val_bound(s: Seq<u8>)
    ensures
        le_val(s) < pow_n(256, s.len() as nat),
    decreases s.len(),
{
    if s.len() > 0 {
        lemma_le_val_bound(s.skip(1));
        let p = pow_n(256, (s.len() - 1) as nat);
        assert(pow_n(256, s.len() as nat) == 256 * p);
        assert(s[0] as nat + 256 * le_val(s.skip(1)) < 256 * p) by (nonlinear_arith)
            requires
                le_val(s.skip(1)) < p,
                s[0] < 256,
        ;
    }
}

pub proof fn lemma_pow256_8()
    ensures
        pow_n(256, 8) == 0x1_0000_0000_0000_0000,
{
    reveal_with_fuel(pow_n, 9);
}

// --- the field layer ---

#[verifier::ext_equal]
pub enum WireVal {
    Varint(u64),
    Fixed64(u64),
    Bytes(Seq<u8>),
    Fixed32(u64),
}

#[verifier::ext_equal]
pub struct WireField {
    pub fno: u64,
    pub val: WireVal,
}

pub open spec fn wire_type(v: WireVal) -> u64 {
    match v {
        WireVal::Varint(_) => 0,
        WireVal::Fixed64(_) => 1,
        WireVal::Bytes(_) => 2,
        WireVal::Fixed32(_) => 5,
    }
}

pub open spec fn wf_field(f: WireField) -> bool {
    &&& f.fno >= 1
    &&& f.fno <= 0x0FFF_FFFF_FFFF_FFFF
    &&& (f.val matches WireVal::Bytes(data) ==> data.len() <= u64::MAX)
    &&& (f.val matches WireVal::Fixed32(v) ==> v < 0x1_0000_0000)
}

pub open spec fn encode_field(f: WireField) -> Seq<u8> {
    let tag = 8 * f.fno as nat + wire_type(f.val) as nat;
    match f.val {
        WireVal::Varint(v) => varint(tag) + varint(v as nat),
        WireVal::Fixed64(v) => varint(tag) + le_bytes(v as nat, 8),
        WireVal::Bytes(data) => varint(tag) + varint(data.len()) + data,
        WireVal::Fixed32(v) => varint(tag) + le_bytes(v as nat, 4),
    }
}

pub open spec fn encode_fields(fs: Seq<WireField>) -> Seq<u8>
    decreases fs.len(),
{
    if fs.len() == 0 {
        Seq::empty()
    } else {
        encode_field(fs[0]) + encode_fields(fs.skip(1))
    }
}

/// Splits a buffer into its sequence of wire fields; `None` is a
/// structural parse failure. Field number zero is rejected; the
/// deprecated group wire types are rejected.
pub open spec fn parse_fields(s: Seq<u8>) -> Option<Seq<WireField>>
    decreases s.len(),
{
    if s.len() == 0 {
        Some(Seq::empty())
    } else {
        proof {
            lemma_parse_u64_bounds(s);
        }
        match parse_u64(s) {
            None => None,
            Some(tc) => {
                let tag = tc.0;
                let fno = tag / 8;
                let wt = tag % 8;
                let rest = s.skip(tc.1);
                proof {
                    lemma_parse_u64_bounds(rest);
                }
                if fno == 0 {
                    None
                } else if wt == 0 {
                    match parse_u64(rest) {
                        None => None,
                        Some(vc) => match parse_fields(rest.skip(vc.1)) {
                            None => None,
                            Some(fs) => Some(
                                seq![WireField { fno, val: WireVal::Varint(vc.0) }] + fs,
                            ),
                        },
                    }
                } else if wt == 1 {
                    if rest.len() >= 8 {
                        match parse_fields(rest.skip(8)) {
                            None => None,
                            Some(fs) => Some(
                                seq![
                                    WireField {
                                        fno,
                                        val: WireVal::Fixed64(le_val(rest.take(8)) as u64),
                                    },
                                ] + fs,
                            ),
                        }
                    } else {
                        None
                    }
                } else if wt == 2 {
                    match parse_u64(rest) {
                        None => None,
                        Some(lc) => {
                            let body = rest.skip(lc.1);
                            if lc.0 as int <= body.len() {
                                match parse_fields(body.skip(lc.0 as int)) {
                                    None => None,
                                    Some(fs) => Some(
                                        seq![
                                            WireField {
                                                fno,
                                                val: WireVal::Bytes(body.take(lc.0 as int)),
                                            },
                                        ] + fs,
                                    ),
                                }
                            } else {
                                None
                            }
                        },
                    }
                } else if wt == 5 {
                    if rest.len() >= 4 {
                        match parse_fields(rest.skip(4)) {
                            None => None,
                            Some(fs) => Some(
                                seq![
                                    WireField {
                                        fno,
                                        val: WireVal::Fixed32(le_val(rest.take(4)) as u64),
                                    },
                                ] + fs,
                            ),
                        }
                    } else {
                        None
                    }
                } else {
                    None
                }
            },
        }
    }
}

#[verifier::rlimit(100)]
pub proof fn lemma_encode_field_parses(f: WireField, rest: Seq<u8>)
    requires
        wf_field(f),
    ensures
        encode_field(f).len() >= 1,
        parse_fields(encode_field(f) + rest) == match parse_fields(rest) {
            None => None::<Seq<WireField>>,
            Some(fs) => Some(seq![f] + fs),
        },
{
    let tag: nat = 8 * f.fno as nat + wire_type(f.val) as nat;
    let s = encode_field(f) + rest;
    assert(tag / 8 == f.fno as nat && tag % 8 == wire_type(f.val) as nat) by (nonlinear_arith)
        requires
            tag == 8 * f.fno as nat + wire_type(f.val) as nat,
            wire_type(f.val) < 8,
    ;
    match f.val {
        WireVal::Varint(v) => {
            lemma_varint_parse(tag, varint(v as nat) + rest);
            assert(s =~= varint(tag) + (varint(v as nat) + rest));
            let c1 = varint(tag).len() as int;
            assert(s.skip(c1) =~= varint(v as nat) + rest);
            lemma_varint_parse(v as nat, rest);
            let c2 = varint(v as nat).len() as int;
            assert(s.skip(c1).skip(c2) =~= rest);
        },
        WireVal::Fixed64(v) => {
            lemma_varint_parse(tag, le_bytes(v as nat, 8) + rest);
            assert(s =~= varint(tag) + (le_bytes(v as nat, 8) + rest));
            let c1 = varint(tag).len() as int;
            assert(s.skip(c1) =~= le_bytes(v as nat, 8) + rest);
            lemma_le_bytes_len(v as nat, 8);
            assert(s.skip(c1).take(8) =~= le_bytes(v as nat, 8));
            lemma_pow256_8();
            lemma_le_round_trip(v as nat, 8);
            assert(s.skip(c1).skip(8) =~= rest);
        },
        WireVal::Bytes(data) => {
            lemma_varint_parse(tag, varint(data.len()) + data + rest);
            assert(s =~= varint(tag) + (varint(data.len()) + data + rest));
            let c1 = varint(tag).len() as int;
            assert(s.skip(c1) =~= varint(data.len()) + (data + rest));
            lemma_varint_parse(data.len(), data + rest);
            let c2 = varint(data.len()).len() as int;
            assert(s.skip(c1).skip(c2) =~= data + rest);
            assert(s.skip(c1).skip(c2).take(data.len() as int) =~= data);
            assert(s.skip(c1).skip(c2).skip(data.len() as int) =~= rest);
        },
        WireVal::Fixed32(v) => {
            lemma_varint_parse(tag, le_bytes(v as nat, 4) + rest);
            assert(s =~= varint(tag) + (le_bytes(v as nat, 4) + rest));
            let c1 = varint(tag).len() as int;
            assert(s.skip(c1) =~= le_bytes(v as nat, 4) + rest);
            lemma_le_bytes_len(v as nat, 4);
            assert(s.skip(c1).take(4) =~= le_bytes(v as nat, 4));
            assert(pow_n(256, 4) == 0x1_0000_0000) by {
                reveal_with_fuel(pow_n, 5);
            }
            lemma_le_round_trip(v as nat, 4);
            assert(s.skip(c1).skip(4) =~= rest);
        },
    }
}

pub open spec fn all_fields_wf(fs: Seq<WireField>) -> bool {
    forall|i: int| 0 <= i < fs.len() ==> wf_field(#[trigger] fs[i])
}

pub proof fn lemma_encode_fields_parse_rec(fs: Seq<WireField>, rest: Seq<u8>)
    requires
        all_fields_wf(fs),
    ensures
        parse_fields(encode_fields(fs) + rest) == match parse_fields(rest) {
            None => None::<Seq<WireField>>,
            Some(tl) => Some(fs + tl),
        },
    decreases fs.len(),
{
    if fs.len() == 0 {
        assert(encode_fields(fs) + rest =~= rest);
        match parse_fields(rest) {
            Some(tl) => {
                assert(fs + tl =~= tl);
            },
            None => {},
        }
    } else {
        lemma_encode_fields_parse_rec(fs.skip(1), rest);
        assert(encode_fields(fs) + rest =~= encode_field(fs[0]) + (encode_fields(fs.skip(1))
            + rest));
        lemma_encode_field_parses(fs[0], encode_fields(fs.skip(1)) + rest);
        match parse_fields(rest) {
            Some(tl) => {
                assert(seq![fs[0]] + (fs.skip(1) + tl) =~= fs + tl);
            },
            None => {},
        }
    }
}

/// A canonical encoding of well-formed fields splits back into exactly
/// those fields.
pub proof fn lemma_encode_fields_parse(fs: Seq<WireField>)
    requires
        all_fields_wf(fs),
    ensures
        parse_fields(encode_fields(fs)) == Some(fs),
{
    lemma_encode_fields_parse_rec(fs, Seq::empty());
    assert(encode_fields(fs) + Seq::<u8>::empty() =~= encode_fields(fs));
    assert(fs + Seq::<WireField>::empty() =~= fs);
}

// --- executable mirror ---

pub enum WireValX {
    Varint(u64),
    Fixed64(u64),
    Bytes(Vec<u8>),
    Fixed32(u64),
}

pub struct WireFieldX {
    pub fno: u64,
    pub val: WireValX,
}

impl View for WireValX {
    type V = WireVal;

    open spec fn view(&self) -> WireVal {
        match self {
            WireValX::Varint(v) => WireVal::Varint(*v),
            WireValX::Fixed64(v) => WireVal::Fixed64(*v),
            WireValX::Bytes(b) => WireVal::Bytes(b@),
            WireValX::Fixed32(v) => WireVal::Fixed32(*v),
        }
    }
}

impl View for WireFieldX {
    type V = WireField;

    open spec fn view(&self) -> WireField {
        WireField { fno: self.fno, val: self.val@ }
    }
}

pub open spec fn fields_view(fs: Seq<WireFieldX>) -> Seq<WireField> {
    fs.map_values(|f: WireFieldX| f@)
}

fn parse_varint_x(s: &[u8], fuel: u64) -> (r: Option<(u64, usize)>)
    ensures
        match r {
            Some(vc) => parse_varint(s@, fuel as nat) == Some((vc.0 as nat, vc.1 as int)),
            None => match parse_varint(s@, fuel as nat) {
                Some(vc) => vc.0 > u64::MAX as nat,
                None => true,
            },
        },
    decreases fuel,
{
    if fuel == 0 || s.len() == 0 {
        return None;
    }
    let b: u8 = *vstd::slice::slice_index_get(s, 0);
    if b < 128 {
        Some((b as u64, 1))
    } else {
        let rest = slice_subrange(s, 1, s.len());
        proof {
            assert(rest@ =~= s@.skip(1));
        }
        match parse_varint_x(rest, fuel - 1) {
            None => {
                proof {
                    match parse_varint(rest@, (fuel - 1) as nat) {
                        Some(vc) => {
                            assert((b - 128) as nat + 128 * vc.0 >= vc.0) by (nonlinear_arith);
                        },
                        None => {},
                    }
                }
                None
            },
            Some((v, c)) => {
                proof {
                    lemma_parse_varint_bounds(rest@, (fuel - 1) as nat);
                }
                if v > 0x01ff_ffff_ffff_ffffu64 {
                    proof {
                        assert((b - 128) as nat + 128 * (v as nat) > u64::MAX as nat)
                            by (nonlinear_arith)
                            requires
                                v > 0x01ff_ffff_ffff_ffffu64,
                        ;
                    }
                    None
                } else {
                    Some(((b - 128) as u64 + 128 * v, c + 1))
                }
            },
        }
    }
}

/// Reads one varint from the front of the buffer: the value and the
/// number of bytes it occupied.
pub fn parse_u64_x(s: &[u8]) -> (r: Option<(u64, usize)>)
    ensures
        r matches Some(vc) ==> parse_u64(s@) == Some((vc.0, vc.1 as int)),
        r is None ==> parse_u64(s@) is None,
{
    parse_varint_x(s, 10)
}

proof fn lemma_pow_mono(b: nat, j: nat, k: nat)
    requires
        b >= 1,
        j <= k,
    ensures
        pow_n(b, j) <= pow_n(b, k),
    decreases k,
{
    if j < k {
        lemma_pow_mono(b, j, (k - 1) as nat);
        assert(pow_n(b, k) == b * pow_n(b, (k - 1) as nat));
        assert(b * pow_n(b, (k - 1) as nat) >= pow_n(b, (k - 1) as nat)) by (nonlinear_arith)
            requires
                b >= 1,
        ;
    }
}

fn read_le_x(s: &[u8], k: usize) -> (r: u64)
    requires
        k <= s@.len(),
        k <= 8,
    ensures
        r as nat == le_val(s@.take(k as int)),
    decreases k,
{
    if k == 0 {
        proof {
            assert(s@.take(0) =~= Seq::<u8>::empty());
        }
        0
    } else {
        let b: u8 = *vstd::slice::slice_index_get(s, 0);
        let rest = slice_subrange(s, 1, s.len());
        let v = read_le_x(rest, k - 1);
        proof {
            assert(s@.take(k as int).skip(1) =~= rest@.take((k - 1) as int));
            lemma_le_val_bound(rest@.take((k - 1) as int));
            lemma_pow_mono(256, (k - 1) as nat, 7);
            assert(pow_n(256, 7) == 0x100_0000_0000_0000) by {
                reveal_with_fuel(pow_n, 8);
            }
        }
        b as u64 + 256 * v
    }
}

/// Splits a buffer into its wire fields, or reports a structural failure.
pub fn parse_fields_x(s: &[u8]) -> (r: Option<Vec<WireFieldX>>)
    ensures
        match r {
            Some(fs) => parse_fields(s@) == Some(fields_view(fs@)),
            None => parse_fields(s@) is None,
        },
    decreases s@.len(),
{
    if s.len() == 0 {
        let fs: Vec<WireFieldX> = Vec::new();
        proof {
            assert(fields_view(fs@) =~= Seq::<WireField>::empty());
        }
        return Some(fs);
    }
    match parse_u64_x(s) {
        None => None,
        Some((tag, c1)) => {
            proof {
                lemma_parse_u64_bounds(s@);
            }
            let fno = tag / 8;
            let wt = tag % 8;
            let rest = slice_subrange(s, c1, s.len());
            proof {
                assert(rest@ =~= s@.skip(c1 as int));
            }
            if fno == 0 {
                None
            } else if wt == 0 {
                match parse_u64_x(rest) {
                    None => None,
                    Some((v, c2)) => {
                        proof {
                            lemma_parse_u64_bounds(rest@);
                        }
                        let tail = slice_subrange(rest, c2, rest.len());
                        proof {
                            assert(tail@ =~= rest@.skip(c2 as int));
                        }
                        prepend_field(WireFieldX { fno, val: WireValX::Varint(v) }, parse_fields_x(tail))
                    },
                }
            } else if wt == 1 {
                if rest.len() >= 8 {
                    let v = read_le_x(rest, 8);
                    proof {
                        lemma_le_val_bound(rest@.take(8));
                        lemma_pow256_8();
                    }
                    let tail = slice_subrange(rest, 8, rest.len());
                    proof {
                        assert(tail@ =~= rest@.skip(8));
                    }
                    prepend_field(WireFieldX { fno, val: WireValX::Fixed64(v) }, parse_fields_x(tail))
                } else {
                    None
                }
            } else if wt == 2 {
                match parse_u64_x(rest) {
                    None => None,
                    Some((dlen, c2)) => {
                        proof {
                            lemma_parse_u64_bounds(rest@);
                        }
                        let body = slice_subrange(rest, c2, rest.len());
                        proof {
                            assert(body@ =~= rest@.skip(c2 as int));
                        }
                        if dlen <= body.len() as u64 {
                            let dl = dlen as usize;
                            let data = slice_to_vec(slice_subrange(body, 0, dl));
                            proof {
                                assert(data@ =~= body@.take(dlen as int));
                            }
                            let tail = slice_subrange(body, dl, body.len());
                            proof {
                                assert(tail@ =~= body@.skip(dlen as int));
                            }
                            prepend_field(
                                WireFieldX { fno, val: WireValX::Bytes(data) },
                                parse_fields_x(tail),
                            )
                        } else {
                            None
                        }
                    },
                }
            } else if wt == 5 {
                if rest.len() >= 4 {
                    let v = read_le_x(rest, 4);
                    proof {
                        lemma_le_val_bound(rest@.take(4));
                        lemma_pow_mono(256, 4, 8);
                        lemma_pow256_8();
                    }
                    let tail = slice_subrange(rest, 4, rest.len());
                    proof {
                        assert(tail@ =~= rest@.skip(4));
                    }
                    prepend_field(WireFieldX { fno, val: WireValX::Fixed32(v) }, parse_fields_x(tail))
                } else {
                    None
                }
            } else {
                None
            }
        },
    }
}

fn prepend_field(f: WireFieldX, r: Option<Vec<WireFieldX>>) -> (out: Option<Vec<WireFieldX>>)
    ensures
        match out {
            Some(fs) => r matches Some(tl) && fields_view(fs@) == seq![f@] + fields_view(tl@),
            None => r is None,
        },
{
    match r {
        None => None,
        Some(mut fs) => {
            let ghost pre = fs@;
            fs.insert(0, f);
            proof {
                assert(fields_view(fs@) =~= seq![f@] + fields_view(pre));
            }
            Some(fs)
        },
    }
}

/// Appends the canonical varint encoding of `n`.
pub fn push_varint(out: &mut Vec<u8>, n: u64)
    ensures
        final(out)@ == old(out)@ + varint(n as nat),
    decreases n,
{
    if n < 128 {
        out.push(n as u8);
        proof {
            assert(out@ =~= old(out)@ + varint(n as nat));
        }
    } else {
        out.push((n % 128 + 128) as u8);
        push_varint(out, n / 128);
        proof {
            assert(out@ =~= old(out)@ + varint(n as nat));
        }
    }
}

fn push_le(out: &mut Vec<u8>, n: u64, k: usize)
    ensures
        final(out)@ == old(out)@ + le_bytes(n as nat, k as nat),
    decreases k,
{
    if k == 0 {
        proof {
            assert(out@ =~= old(out)@ + le_bytes(n as nat, 0));
        }
    } else {
        out.push((n % 256) as u8);
        push_le(out, n / 256, k - 1);
        proof {
            assert(out@ =~= old(out)@ + le_bytes(n as nat, k as nat));
        }
    }
}

/// Appends a varint-typed field.
pub fn push_varint_field(out: &mut Vec<u8>, fno: u64, v: u64)
    requires
        1 <= fno <= 0x0FFF_FFFF_FFFF_FFFF,
    ensures
        final(out)@ == old(out)@ + encode_field(WireField { fno, val: WireVal::Varint(v) }),
{
    push_varint(out, 8 * fno);
    push_varint(out, v);
    proof {
        assert(out@ =~= old(out)@ + encode_field(WireField { fno, val: WireVal::Varint(v) }));
    }
}

/// Appends a fixed64-typed field.
pub fn push_fixed64_field(out: &mut Vec<u8>, fno: u64, v: u64)
    requires
        1 <= fno <= 0x0FFF_FFFF_FFFF_FFFF,
    ensures
        final(out)@ == old(out)@ + encode_field(WireField { fno, val: WireVal::Fixed64(v) }),
{
    push_varint(out, 8 * fno + 1);
    push_le(out, v, 8);
    proof {
        assert(out@ =~= old(out)@ + encode_field(WireField { fno, val: WireVal::Fixed64(v) }));
    }
}

/// Appends a length-delimited field.
pub fn push_bytes_field(out: &mut Vec<u8>, fno: u64, data: &[u8])
    requires
        1 <= fno <= 0x0FFF_FFFF_FFFF_FFFF,
    ensures
        final(out)@ == old(out)@ + encode_field(WireField { fno, val: WireVal::Bytes(data@) }),
{
    push_varint(out, 8 * fno + 2);
    push_varint(out, data.len() as u64);
    let ghost mid = out@;
    let mut i: usize = 0;
    while i < data.len()
        invariant
            i <= data@.len(),
            out@ == mid + data@.take(i as int),
        decreases data@.len() - i,
    {
        out.push(*vstd::slice::slice_index_get(data, i));
        proof {
            assert(data@.take(i + 1) =~= data@.take(i as int).push(data@[i as int]));
            assert(mid + data@.take(i + 1) =~= (mid + data@.take(i as int)).push(
                data@[i as int],
            ));
        }
        i = i + 1;
    }
    proof {
        assert(data@.take(data@.len() as int) =~= data@);
        assert(out@ =~= old(out)@ + encode_field(WireField { fno, val: WireVal::Bytes(data@) }));
    }
}

pub proof fn lemma_encode_fields_snoc(fs: Seq<WireField>, f: WireField)
    ensures
        encode_fields(fs.push(f)) == encode_fields(fs) + encode_field(f),
    decreases fs.len(),
{
    if fs.len() == 0 {
        assert(fs.push(f)[0] == f);
        assert(fs.push(f).skip(1) =~= Seq::<WireField>::empty());
        assert(encode_fields(fs.push(f).skip(1)) == Seq::<u8>::empty());
        assert(encode_fields(fs) == Seq::<u8>::empty());
        assert(encode_field(f) + Seq::<u8>::empty() =~= encode_field(f));
        assert(Seq::<u8>::empty() + encode_field(f) =~= encode_field(f));
    } else {
        lemma_encode_fields_snoc(fs.skip(1), f);
        assert(fs.push(f).skip(1) =~= fs.skip(1).push(f));
        assert(fs.push(f)[0] == fs[0]);
        assert(encode_field(fs[0]) + (encode_fields(fs.skip(1)) + encode_field(f))
            =~= (encode_field(fs[0]) + encode_fields(fs.skip(1))) + encode_field(f));
    }
}

} // verus!
