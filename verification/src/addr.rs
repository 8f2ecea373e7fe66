//! The peer address: an IPv4 host and a TCP port, held as plain values. It
//! serves both as the routing destination of an outbound message and as the
//! key of the stream table, and it is parsed once from its dotted text form
//! `a.b.c.d:port`. On the inbound path the address is the socket's observed
//! remote address, not anything carried inside a payload.

use vstd::prelude::*;

verus! {

/// An ASCII decimal digit.
pub open spec fn is_digit(b: u8) -> bool {
    48 <= b <= 57
}

/// The value of one digit byte.
pub open spec fn digit_of(b: u8) -> nat {
    if is_digit(b) {
        (b - 48) as nat
    } else {
        0
    }
}

/// The decimal text of `n`: most significant digit first, no leading zero
/// but for `0` itself.
pub open spec fn dec_rep(n: nat) -> Seq<u8>
    decreases n,
{
    if n < 10 {
        seq![(48 + n) as u8]
    } else {
        dec_rep(n / 10) + seq![(48 + n % 10) as u8]
    }
}

/// The first position at or after `i` that does not hold a digit.
pub open spec fn digits_end(s: Seq<u8>, i: int) -> int
    decreases s.len() - i,
{
    if 0 <= i < s.len() && is_digit(s[i]) {
        digits_end(s, i + 1)
    } else {
        i
    }
}

/// The decimal value of the digit run `s[i..j]`.
pub open spec fn digits_val(s: Seq<u8>, i: int, j: int) -> nat
    decreases j - i,
{
    if i < j {
        digits_val(s, i, j - 1) * 10 + digit_of(s[j - 1])
    } else {
        0
    }
}

/// Reads one canonical decimal number of value at most `max` starting at
/// `i`: its value and the position after it. An empty run, a leading zero
/// or a value out of range reads as nothing.
pub open spec fn parse_num_spec(s: Seq<u8>, i: int, max: nat) -> Option<(nat, int)> {
    let j = digits_end(s, i);
    if j == i {
        None
    } else if s[i] == 48 && j > i + 1 {
        None
    } else if digits_val(s, i, j) > max {
        None
    } else {
        Some((digits_val(s, i, j), j))
    }
}

/// A host+port peer identity.
#[derive(PartialEq, Eq, Structural, Clone, Copy, Debug, Hash)]
pub struct PeerAddr {
    /// First octet of the IPv4 host.
    pub a: u8,
    /// Second octet.
    pub b: u8,
    /// Third octet.
    pub c: u8,
    /// Fourth octet.
    pub d: u8,
    /// TCP port.
    pub port: u16,
}

/// The dotted text of an address: `a.b.c.d:port`, each number in canonical
/// decimal.
pub open spec fn render_spec(a: PeerAddr) -> Seq<u8> {
    dec_rep(a.a as nat) + seq![46u8] + dec_rep(a.b as nat) + seq![46u8] + dec_rep(a.c as nat)
        + seq![46u8] + dec_rep(a.d as nat) + seq![58u8] + dec_rep(a.port as nat)
}

/// Reads a whole byte string as a dotted address: four octets separated by
/// `.`, then `:` and the port, with nothing left over; anything else reads
/// as nothing.
pub open spec fn parse_spec(s: Seq<u8>) -> Option<PeerAddr> {
    match parse_num_spec(s, 0, 255) {
        None => None,
        Some((va, i1)) => if i1 < s.len() && s[i1] == 46 {
            match parse_num_spec(s, i1 + 1, 255) {
                None => None,
                Some((vb, i2)) => if i2 < s.len() && s[i2] == 46 {
                    match parse_num_spec(s, i2 + 1, 255) {
                        None => None,
                        Some((vc, i3)) => if i3 < s.len() && s[i3] == 46 {
                            match parse_num_spec(s, i3 + 1, 255) {
                                None => None,
                                Some((vd, i4)) => if i4 < s.len() && s[i4] == 58 {
                                    match parse_num_spec(s, i4 + 1, 65535) {
                                        None => None,
                                        Some((vp, i5)) => if i5 == s.len() {
                                            Some(
                                                (PeerAddr {
                                                    a: va as u8,
                                                    b: vb as u8,
                                                    c: vc as u8,
                                                    d: vd as u8,
                                                    port: vp as u16,
                                                }),
                                            )
                                        } else {
                                            None
                                        },
                                    }
                                } else {
                                    None
                                },
                            }
                        } else {
                            None
                        },
                    }
                } else {
                    None
                },
            }
        } else {
            None
        },
    }
}

impl PeerAddr {
    /// The address packed into one integer, the stream table's key: the four
    /// host octets above the sixteen port bits.
    pub open spec fn key_spec(self) -> u64 {
        ((self.a as u64) << 40) | ((self.b as u64) << 32) | ((self.c as u64) << 24) | ((
        self.d as u64) << 16) | (self.port as u64)
    }

    /// The table key of this address.
    pub fn key(&self) -> (r: u64)
        ensures
            r == self.key_spec(),
    {
        ((self.a as u64) << 40) | ((self.b as u64) << 32) | ((self.c as u64) << 24) | ((
        self.d as u64) << 16) | (self.port as u64)
    }

    /// The dotted text of this address.
    pub fn render(&self) -> (r: Vec<u8>)
        ensures
            r@ == render_spec(*self),
    {
        let mut v = dec_bytes(self.a as u16);
        v.push(46);
        let mut t = dec_bytes(self.b as u16);
        v.append(&mut t);
        v.push(46);
        let mut t = dec_bytes(self.c as u16);
        v.append(&mut t);
        v.push(46);
        let mut t = dec_bytes(self.d as u16);
        v.append(&mut t);
        v.push(58);
        let mut t = dec_bytes(self.port);
        v.append(&mut t);
        proof {
            assert(v@ =~= render_spec(*self));
        }
        v
    }

    /// Reads a whole byte string as a dotted address, exactly as
    /// `parse_spec` says.
    pub fn parse(s: &Vec<u8>) -> (r: Option<PeerAddr>)
        ensures
            r == parse_spec(s@),
    {
        let (va, i1) = match scan_num(s, 0, 255) {
            Some(t) => t,
            None => {
                return None;
            },
        };
        if i1 >= s.len() {
            return None;
        }
        if s[i1] != 46 {
            return None;
        }
        let (vb, i2) = match scan_num(s, i1 + 1, 255) {
            Some(t) => t,
            None => {
                return None;
            },
        };
        if i2 >= s.len() {
            return None;
        }
        if s[i2] != 46 {
            return None;
        }
        let (vc, i3) = match scan_num(s, i2 + 1, 255) {
            Some(t) => t,
            None => {
                return None;
            },
        };
        if i3 >= s.len() {
            return None;
        }
        if s[i3] != 46 {
            return None;
        }
        let (vd, i4) = match scan_num(s, i3 + 1, 255) {
            Some(t) => t,
            None => {
                return None;
            },
        };
        if i4 >= s.len() {
            return None;
        }
        if s[i4] != 58 {
            return None;
        }
        let (vp, i5) = match scan_num(s, i4 + 1, 65535) {
            Some(t) => t,
            None => {
                return None;
            },
        };
        if i5 != s.len() {
            return None;
        }
        Some(
            PeerAddr {
                a: va as u8,
                b: vb as u8,
                c: vc as u8,
                d: vd as u8,
                port: vp as u16,
            },
        )
    }
}

/// The decimal text of `n`, as bytes.
fn dec_bytes(n: u16) -> (r: Vec<u8>)
    ensures
        r@ == dec_rep(n as nat),
    decreases n,
{
    if n < 10 {
        let mut v: Vec<u8> = Vec::new();
        v.push(48 + n as u8);
        proof {
            assert(v@ =~= dec_rep(n as nat));
        }
        v
    } else {
        let mut v = dec_bytes(n / 10);
        v.push(48 + (n % 10) as u8);
        proof {
            assert(v@ =~= dec_rep(n as nat));
        }
        v
    }
}

/// Reads one canonical decimal number of value at most `max` starting at
/// `i`, exactly as `parse_num_spec` says.
fn scan_num(s: &Vec<u8>, i: usize, max: u32) -> (r: Option<(u32, usize)>)
    requires
        i <= s@.len(),
        max <= 65535,
    ensures
        match r {
            Some(t) => {
                &&& parse_num_spec(s@, i as int, max as nat) == Some(((t.0 as nat), (t.1 as int)))
                &&& i <= t.1 <= s@.len()
                &&& t.0 <= max
            },
            None => parse_num_spec(s@, i as int, max as nat) is None,
        },
{
    let n: usize = s.len();
    let mut j: usize = i;
    while j < n && 48 <= s[j] && s[j] <= 57
        invariant
            i <= j <= n,
            n == s@.len(),
            forall|k: int| i <= k < j ==> is_digit(s@[k]),
        decreases n - j,
    {
        j += 1;
    }
    proof {
        lemma_digits_end_char(s@, i as int, j as int);
    }
    if j == i {
        return None;
    }
    if s[i] == 48 && j > i + 1 {
        return None;
    }
    let mut val: u32 = 0;
    let mut k: usize = i;
    while k < j
        invariant
            i <= k <= j <= n,
            n == s@.len(),
            max <= 65535,
            val <= max,
            val == digits_val(s@, i as int, k as int),
            forall|k2: int| i <= k2 < j ==> is_digit(s@[k2]),
            digits_end(s@, i as int) == j,
            !(s@[i as int] == 48 && j > i + 1),
        decreases j - k,
    {
        let d: u32 = (s[k] - 48) as u32;
        let nv: u32 = val * 10 + d;
        proof {
            assert(digits_val(s@, i as int, k as int + 1) == digits_val(s@, i as int, k as int)
                * 10 + digit_of(s@[k as int]));
        }
        if nv > max {
            proof {
                lemma_digits_val_monotone(s@, i as int, k as int + 1, j as int);
            }
            return None;
        }
        val = nv;
        k += 1;
    }
    Some((val, j))
}

/// A run of digits from `i` to `j`, with `j` at the end of the text or on a
/// non-digit, is exactly what `digits_end` finds.
proof fn lemma_digits_end_char(s: Seq<u8>, i: int, j: int)
    requires
        0 <= i <= j <= s.len(),
        forall|k: int| i <= k < j ==> is_digit(s[k]),
        j == s.len() || !is_digit(s[j]),
    ensures
        digits_end(s, i) == j,
    decreases j - i,
{
    if i < j {
        lemma_digits_end_char(s, i + 1, j);
    }
}

/// A digit run's value never shrinks as the run grows to the right.
proof fn lemma_digits_val_monotone(s: Seq<u8>, i: int, k: int, j: int)
    requires
        i <= k <= j,
    ensures
        digits_val(s, i, j) >= digits_val(s, i, k),
    decreases j - k,
{
    if k < j {
        lemma_digits_val_monotone(s, i, k, j - 1);
    }
}

/// Decimal text consists of digits and is never empty.
proof fn lemma_dec_rep_digits(n: nat)
    ensures
        dec_rep(n).len() >= 1,
        forall|k: int| 0 <= k < dec_rep(n).len() ==> is_digit(#[trigger] dec_rep(n)[k]),
    decreases n,
{
    if n >= 10 {
        lemma_dec_rep_digits(n / 10);
    }
}

/// Decimal text is canonical: no leading zero unless the number is `0`.
proof fn lemma_dec_rep_first(n: nat)
    ensures
        dec_rep(n).len() > 1 ==> dec_rep(n)[0] != 48,
    decreases n,
{
    if n >= 10 {
        lemma_dec_rep_first(n / 10);
        assert(dec_rep(n)[0] == dec_rep(n / 10)[0]);
        if n / 10 < 10 {
            assert(dec_rep(n / 10) == seq![(48 + n / 10) as u8]);
            assert(n / 10 >= 1);
            assert((48 + n / 10) as u8 != 48);
        } else {
            lemma_dec_rep_digits(n / 10 / 10);
            assert(dec_rep(n / 10).len() > 1);
        }
    }
}

/// A digit run that spells `dec_rep(n)` has value `n`.
proof fn lemma_val_of_dec_rep(s: Seq<u8>, i: int, n: nat)
    requires
        0 <= i,
        i + dec_rep(n).len() <= s.len(),
        s.subrange(i, i + dec_rep(n).len() as int) == dec_rep(n),
    ensures
        digits_val(s, i, i + dec_rep(n).len() as int) == n,
    decreases n,
{
    let t = dec_rep(n);
    let j = i + t.len() as int;
    if n < 10 {
        assert(t == seq![(48 + n) as u8]);
        assert(s.subrange(i, j)[0] == t[0]);
        assert(s[i] == (48 + n) as u8);
        assert(digit_of(s[i]) == n);
        assert(digits_val(s, i, j) == digits_val(s, i, i) * 10 + digit_of(s[i]));
    } else {
        let t0 = dec_rep(n / 10);
        let j0 = i + t0.len() as int;
        assert(t == t0 + seq![(48 + n % 10) as u8]);
        assert(s.subrange(i, j0) =~= t0) by {
            assert forall|k: int| 0 <= k < t0.len() implies s.subrange(i, j0)[k] == t0[k] by {
                assert(s.subrange(i, j)[k] == t[k]);
            }
        }
        lemma_val_of_dec_rep(s, i, n / 10);
        assert(digits_val(s, i, j0) == n / 10);
        assert(s.subrange(i, j)[j - 1 - i] == t[t.len() - 1]);
        assert(s[j - 1] == (48 + n % 10) as u8);
        assert(digit_of(s[j - 1]) == n % 10);
        assert(j - 1 == j0);
        assert(digits_val(s, i, j) == digits_val(s, i, j0) * 10 + digit_of(s[j - 1]));
        vstd::arithmetic::div_mod::lemma_fundamental_div_mod(n as int, 10);
        assert(n / 10 * 10 + n % 10 == n);
    }
}

/// Round trip of the address text: the dotted text of any address parses
/// back to exactly that address.
pub proof fn lemma_parse_render_round_trip(a: PeerAddr)
    ensures
        parse_spec(render_spec(a)) == Some(a),
{
    let s = render_spec(a);
    let ta = dec_rep(a.a as nat);
    let tb = dec_rep(a.b as nat);
    let tc = dec_rep(a.c as nat);
    let td = dec_rep(a.d as nat);
    let tp = dec_rep(a.port as nat);
    lemma_dec_rep_digits(a.a as nat);
    lemma_dec_rep_digits(a.b as nat);
    lemma_dec_rep_digits(a.c as nat);
    lemma_dec_rep_digits(a.d as nat);
    lemma_dec_rep_digits(a.port as nat);
    lemma_dec_rep_first(a.a as nat);
    lemma_dec_rep_first(a.b as nat);
    lemma_dec_rep_first(a.c as nat);
    lemma_dec_rep_first(a.d as nat);
    lemma_dec_rep_first(a.port as nat);
    let e0 = ta.len() as int;
    let o1 = e0 + 1;
    let e1 = o1 + tb.len() as int;
    let o2 = e1 + 1;
    let e2 = o2 + tc.len() as int;
    let o3 = e2 + 1;
    let e3 = o3 + td.len() as int;
    let o4 = e3 + 1;
    let e4 = o4 + tp.len() as int;
    assert(s.len() == e4);
    assert(s[e0] == 46 && s[e1] == 46 && s[e2] == 46 && s[e3] == 58);

    assert(s.subrange(0, e0) =~= ta);
    lemma_digits_end_char(s, 0, e0);
    lemma_val_of_dec_rep(s, 0, a.a as nat);
    assert(parse_num_spec(s, 0, 255) == Some((a.a as nat, e0)));

    assert(s.subrange(o1, e1) =~= tb);
    assert(forall|k: int| o1 <= k < e1 ==> is_digit(s[k]));
    lemma_digits_end_char(s, o1, e1);
    lemma_val_of_dec_rep(s, o1, a.b as nat);
    assert(parse_num_spec(s, o1, 255) == Some((a.b as nat, e1)));

    assert(s.subrange(o2, e2) =~= tc);
    assert(forall|k: int| o2 <= k < e2 ==> is_digit(s[k]));
    lemma_digits_end_char(s, o2, e2);
    lemma_val_of_dec_rep(s, o2, a.c as nat);
    assert(parse_num_spec(s, o2, 255) == Some((a.c as nat, e2)));

    assert(s.subrange(o3, e3) =~= td);
    assert(forall|k: int| o3 <= k < e3 ==> is_digit(s[k]));
    lemma_digits_end_char(s, o3, e3);
    lemma_val_of_dec_rep(s, o3, a.d as nat);
    assert(parse_num_spec(s, o3, 255) == Some((a.d as nat, e3)));

    assert(s.subrange(o4, e4) =~= tp);
    assert(forall|k: int| o4 <= k < e4 ==> is_digit(s[k]));
    lemma_digits_end_char(s, o4, e4);
    lemma_val_of_dec_rep(s, o4, a.port as nat);
    assert(parse_num_spec(s, o4, 65535) == Some((a.port as nat, e4)));
}

/// Packing is injective: two addresses with the same table key are the same
/// peer, so one table entry never stands for two peers.
pub proof fn lemma_key_injective(x: PeerAddr, y: PeerAddr)
    requires
        x.key_spec() == y.key_spec(),
    ensures
        x == y,
{
    let (a1, b1, c1, d1, p1) = (x.a, x.b, x.c, x.d, x.port);
    let (a2, b2, c2, d2, p2) = (y.a, y.b, y.c, y.d, y.port);
    assert(((a1 as u64) << 40 | (b1 as u64) << 32 | (c1 as u64) << 24 | (d1 as u64) << 16 | (
    p1 as u64)) == ((a2 as u64) << 40 | (b2 as u64) << 32 | (c2 as u64) << 24 | (d2 as u64) << 16
        | (p2 as u64)) ==> a1 == a2 && b1 == b2 && c1 == c2 && d1 == d2 && p1 == p2)
        by (bit_vector);
}

} // verus!
