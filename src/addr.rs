//! Client addresses, and the key under which a client is rate-limited.
//!
//! An address literal is read as std reads `Ipv4Addr` and `Ipv6Addr`: four decimal octets
//! without leading zeros, or eight hexadecimal groups of which a run of zero groups may be
//! written `::` and the last two as a dotted IPv4 address.

use vstd::prelude::*;
use crate::text::{digits_value, is_decimal_digit, is_hex_digit};

verus! {

/// An IP address, as the rate limiter keys its buckets.
#[derive(Debug, Clone, Copy, PartialEq, Eq, Hash)]
pub enum IpAddress {
    V4([u8; 4]),
    V6([u16; 8]),
}

/// `s` cut at every `sep`: one more piece than there are separators, pieces may be empty.
pub open spec fn split_on(s: Seq<char>, sep: char) -> Seq<Seq<char>>
    decreases s.len(),
{
    if s.len() == 0 {
        seq![Seq::empty()]
    } else {
        let p = split_on(s.drop_last(), sep);
        if s.last() == sep {
            p.push(Seq::empty())
        } else {
            p.update(p.len() - 1, p.last().push(s.last()))
        }
    }
}

pub proof fn lemma_split_on_nonempty(s: Seq<char>, sep: char)
    ensures
        split_on(s, sep).len() >= 1,
    decreases s.len(),
{
    if s.len() > 0 {
        lemma_split_on_nonempty(s.drop_last(), sep);
    }
}

/// An octet of a dotted IPv4 address: one to three decimal digits, with no leading zero
/// unless it is the only digit, whose value is at most 255.
pub open spec fn octet_of(t: Seq<char>) -> Option<u8> {
    if 1 <= t.len() <= 3 && (forall|i: int| 0 <= i < t.len() ==> is_decimal_digit(#[trigger] t[i]))
        && (t.len() == 1 || t[0] != '0') && digits_value(t, 10) <= 255 {
        Some(digits_value(t, 10) as u8)
    } else {
        None
    }
}

/// The octets of a dotted IPv4 address, if `s` is one.
pub open spec fn ipv4_octets(s: Seq<char>) -> Option<Seq<u8>> {
    let p = split_on(s, '.');
    if p.len() == 4 && (forall|i: int| 0 <= i < 4 ==> (#[trigger] octet_of(p[i])) is Some) {
        Some(Seq::new(4, |i: int| octet_of(p[i]).unwrap()))
    } else {
        None
    }
}

/// A group of an IPv6 address: one to four hexadecimal digits, leading zeros allowed.
pub open spec fn group_of(t: Seq<char>) -> Option<u16> {
    if 1 <= t.len() <= 4 && (forall|i: int| 0 <= i < t.len() ==> is_hex_digit(#[trigger] t[i])) {
        Some(digits_value(t, 16) as u16)
    } else {
        None
    }
}

pub open spec fn all_groups(p: Seq<Seq<char>>) -> bool {
    forall|i: int| 0 <= i < p.len() ==> (#[trigger] group_of(p[i])) is Some
}

pub open spec fn groups_value(p: Seq<Seq<char>>) -> Seq<u16> {
    Seq::new(p.len(), |i: int| group_of(p[i]).unwrap())
}

/// The two groups that an IPv4 address stands for at the end of an IPv6 address.
pub open spec fn octets_as_groups(o: Seq<u8>) -> Seq<u16> {
    seq![(o[0] as nat * 256 + o[1] as nat) as u16, (o[2] as nat * 256 + o[3] as nat) as u16]
}

/// The groups written by the pieces `p` of a run of `:`-separated groups; where `dotted`
/// holds, the last piece may be a dotted IPv4 address.
pub open spec fn run_groups(p: Seq<Seq<char>>, dotted: bool) -> Option<Seq<u16>> {
    if dotted && p.len() >= 1 && ipv4_octets(p.last()) is Some && all_groups(p.drop_last()) {
        Some(groups_value(p.drop_last()) + octets_as_groups(ipv4_octets(p.last()).unwrap()))
    } else if all_groups(p) {
        Some(groups_value(p))
    } else {
        None
    }
}

/// The groups written by one side of a `::`; that side may be empty.
pub open spec fn side_groups(s: Seq<char>, dotted: bool) -> Option<Seq<u16>> {
    if s.len() == 0 {
        Some(Seq::empty())
    } else {
        run_groups(split_on(s, ':'), dotted)
    }
}

/// The first place at or after `i` where `s` holds `::`.
pub open spec fn first_double_colon(s: Seq<char>, i: int) -> Option<int>
    decreases s.len() - i,
{
    if i < 0 || i + 1 >= s.len() {
        None
    } else if s[i] == ':' && s[i + 1] == ':' {
        Some(i)
    } else {
        first_double_colon(s, i + 1)
    }
}

/// The eight groups of an IPv6 address, if `s` is one. Without `::` the text holds all
/// eight groups; with it, the groups on its two sides are at most seven, and `::` stands
/// for the zero groups between them.
pub open spec fn ipv6_groups(s: Seq<char>) -> Option<Seq<u16>> {
    match first_double_colon(s, 0) {
        None => match run_groups(split_on(s, ':'), true) {
            Some(g) => if g.len() == 8 {
                Some(g)
            } else {
                None
            },
            None => None,
        },
        Some(k) => match (side_groups(s.take(k), false), side_groups(s.skip(k + 2), true)) {
            (Some(a), Some(b)) => if a.len() + b.len() <= 7 {
                Some(a + Seq::new((8 - a.len() - b.len()) as nat, |i: int| 0u16) + b)
            } else {
                None
            },
            _ => None,
        },
    }
}

/// The characters of `s`, one by one.
fn chars_of(s: &str) -> (r: Vec<char>)
    ensures
        r@ == s@,
{
    let n = s.unicode_len();
    let mut r: Vec<char> = Vec::new();
    let mut i: usize = 0;
    while i < n
        invariant
            n == s@.len(),
            i <= n,
            r@ == s@.subrange(0, i as int),
        decreases n - i,
    {
        r.push(s.get_char(i));
        i = i + 1;
        assert(r@ =~= s@.subrange(0, i as int));
    }
    r
}

pub open spec fn pieces_view(p: Seq<Vec<char>>) -> Seq<Seq<char>> {
    p.map_values(|v: Vec<char>| v@)
}

/// The characters `v[lo..hi]` cut at every `sep`.
fn split_range(v: &Vec<char>, lo: usize, hi: usize, sep: char) -> (r: Vec<Vec<char>>)
    requires
        lo <= hi <= v@.len(),
    ensures
        pieces_view(r@) == split_on(v@.subrange(lo as int, hi as int), sep),
{
    let mut r: Vec<Vec<char>> = Vec::new();
    r.push(Vec::new());
    let mut i: usize = lo;
    assert(pieces_view(r@) =~= split_on(v@.subrange(lo as int, lo as int), sep));
    while i < hi
        invariant
            lo <= i <= hi <= v@.len(),
            r@.len() >= 1,
            pieces_view(r@) == split_on(v@.subrange(lo as int, i as int), sep),
        decreases hi - i,
    {
        let c = v[i];
        let ghost before = pieces_view(r@);
        assert(v@.subrange(lo as int, i + 1).drop_last() =~= v@.subrange(lo as int, i as int));
        if c == sep {
            r.push(Vec::new());
            assert(pieces_view(r@) =~= before.push(Seq::empty()));
        } else {
            let last = r.len() - 1;
            let mut piece = r.pop().unwrap();
            piece.push(c);
            r.push(piece);
            assert(pieces_view(r@) =~= before.update(last as int, before.last().push(c)));
        }
        i = i + 1;
    }
    r
}

/// Reads one octet of a dotted IPv4 address.
fn octet_value(t: &Vec<char>) -> (r: Option<u8>)
    ensures
        r == octet_of(t@),
{
    if t.len() < 1 || t.len() > 3 || (t.len() > 1 && t[0] == '0') {
        return None;
    }
    let mut value: u32 = 0;
    let mut i: usize = 0;
    while i < t.len()
        invariant
            1 <= t@.len() <= 3,
            i <= t@.len(),
            forall|j: int| 0 <= j < i ==> is_decimal_digit(#[trigger] t@[j]),
            value == digits_value(t@.subrange(0, i as int), 10),
            i == 0 ==> value == 0,
            i == 1 ==> value < 10,
            i == 2 ==> value < 100,
            i == 3 ==> value < 1000,
        decreases t@.len() - i,
    {
        let c = t[i];
        if !('0' <= c && c <= '9') {
            return None;
        }
        assert(t@.subrange(0, i + 1).drop_last() =~= t@.subrange(0, i as int));
        let d = c as u32 - '0' as u32;
        assert(value * 10 + d < 10000 && (value < 100 ==> value * 10 + d < 1000) && (value < 10
            ==> value * 10 + d < 100) && (value == 0 ==> value * 10 + d < 10)) by (nonlinear_arith)
            requires
                value < 1000,
                d < 10,
        ;
        value = value * 10 + d;
        i = i + 1;
    }
    assert(t@.subrange(0, i as int) =~= t@);
    if value > 255 {
        None
    } else {
        Some(value as u8)
    }
}

/// Reads a dotted IPv4 address from `v[lo..hi]`.
fn ipv4_in(v: &Vec<char>, lo: usize, hi: usize) -> (r: Option<[u8; 4]>)
    requires
        lo <= hi <= v@.len(),
    ensures
        r matches Some(a) ==> ipv4_octets(v@.subrange(lo as int, hi as int)) == Some(a@),
        r is None ==> ipv4_octets(v@.subrange(lo as int, hi as int)) is None,
{
    let p = split_range(v, lo, hi, '.');
    let ghost pv = split_on(v@.subrange(lo as int, hi as int), '.');
    if p.len() != 4 {
        return None;
    }
    assert(p@.len() == pv.len());
    let mut octets: Vec<u8> = Vec::new();
    let mut i: usize = 0;
    while i < 4
        invariant
            lo <= hi <= v@.len(),
            pv == split_on(v@.subrange(lo as int, hi as int), '.'),
            pieces_view(p@) == pv,
            pv.len() == 4,
            p@.len() == 4,
            i <= 4,
            octets@.len() == i,
            forall|j: int| 0 <= j < i ==> octet_of(pv[j]) == Some(#[trigger] octets@[j]),
        decreases 4 - i,
    {
        assert(pv[i as int] == p@[i as int]@);
        match octet_value(&p[i]) {
            Some(o) => octets.push(o),
            None => {
                assert(octet_of(pv[i as int]) is None);
                return None;
            },
        }
        i = i + 1;
    }
    let a = [octets[0], octets[1], octets[2], octets[3]];
    assert(a@ =~= Seq::new(4, |j: int| octet_of(pv[j]).unwrap()));
    Some(a)
}

/// Reads one group of an IPv6 address.
fn group_value(t: &Vec<char>) -> (r: Option<u16>)
    ensures
        r == group_of(t@),
{
    if t.len() < 1 || t.len() > 4 {
        return None;
    }
    let mut value: u32 = 0;
    let mut i: usize = 0;
    while i < t.len()
        invariant
            1 <= t@.len() <= 4,
            i <= t@.len(),
            forall|j: int| 0 <= j < i ==> is_hex_digit(#[trigger] t@[j]),
            value == digits_value(t@.subrange(0, i as int), 16),
            i == 0 ==> value == 0,
            i == 1 ==> value < 16,
            i == 2 ==> value < 256,
            i == 3 ==> value < 4096,
            i == 4 ==> value < 65536,
        decreases t@.len() - i,
    {
        let c = t[i];
        let d: u32 = if '0' <= c && c <= '9' {
            c as u32 - '0' as u32
        } else if 'a' <= c && c <= 'f' {
            c as u32 - 'a' as u32 + 10
        } else if 'A' <= c && c <= 'F' {
            c as u32 - 'A' as u32 + 10
        } else {
            return None;
        };
        assert(t@.subrange(0, i + 1).drop_last() =~= t@.subrange(0, i as int));
        assert(value * 16 + d < 1048576 && (value < 4096 ==> value * 16 + d < 65536) && (value
            < 256 ==> value * 16 + d < 4096) && (value < 16 ==> value * 16 + d < 256) && (value
            == 0 ==> value * 16 + d < 16)) by (nonlinear_arith)
            requires
                value < 65536,
                d < 16,
        ;
        value = value * 16 + d;
        i = i + 1;
    }
    assert(t@.subrange(0, i as int) =~= t@);
    Some(value as u16)
}

/// Reads the groups of the run `v[lo..hi]`, as `run_groups` says.
fn run_groups_in(v: &Vec<char>, lo: usize, hi: usize, dotted: bool) -> (r: Option<Vec<u16>>)
    requires
        lo <= hi <= v@.len(),
    ensures
        r matches Some(g) ==> run_groups(split_on(v@.subrange(lo as int, hi as int), ':'), dotted)
            == Some(g@),
        r is None ==> run_groups(split_on(v@.subrange(lo as int, hi as int), ':'), dotted) is None,
{
    let p = split_range(v, lo, hi, ':');
    let ghost pv = split_on(v@.subrange(lo as int, hi as int), ':');
    proof {
        lemma_split_on_nonempty(v@.subrange(lo as int, hi as int), ':');
    }
    assert(p@.len() == pv.len());
    let n = p.len();
    let last = &p[n - 1];
    assert(last@ == pv.last());
    let tail = if dotted {
        ipv4_in(last, 0, last.len())
    } else {
        None
    };
    assert(last@.subrange(0, last@.len() as int) =~= last@);
    assert(tail matches Some(o) ==> ipv4_octets(pv.last()) == Some(o@));
    assert(tail is None ==> !(dotted && ipv4_octets(pv.last()) is Some));
    let upto = if tail.is_some() {
        n - 1
    } else {
        n
    };
    let mut g: Vec<u16> = Vec::new();
    let mut i: usize = 0;
    while i < upto
        invariant
            lo <= hi <= v@.len(),
            pv == split_on(v@.subrange(lo as int, hi as int), ':'),
            pieces_view(p@) == pv,
            p@.len() == pv.len(),
            p@.len() >= 1,
            tail is Some ==> upto == p@.len() - 1 && dotted,
            tail is None ==> upto == p@.len(),
            tail matches Some(o) ==> ipv4_octets(pv.last()) == Some(o@),
            tail is None ==> !(dotted && ipv4_octets(pv.last()) is Some),
            i <= upto,
            g@.len() == i,
            forall|j: int| 0 <= j < i ==> group_of(pv[j]) == Some(#[trigger] g@[j]),
        decreases upto - i,
    {
        assert(pv[i as int] == p@[i as int]@);
        match group_value(&p[i]) {
            Some(x) => g.push(x),
            None => {
                assert(group_of(pv[i as int]) is None);
                assert(!all_groups(pv));
                assert(tail is Some ==> !all_groups(pv.drop_last())) by {
                    if tail is Some {
                        assert(pv.drop_last()[i as int] == pv[i as int]);
                    }
                }
                return None;
            },
        }
        i = i + 1;
    }
    match tail {
        Some(o) => {
            assert(all_groups(pv.drop_last())) by {
                assert forall|j: int| 0 <= j < pv.drop_last().len() implies (#[trigger] group_of(
                    pv.drop_last()[j],
                )) is Some by {
                    assert(pv.drop_last()[j] == pv[j]);
                    assert(group_of(pv[j]) == Some(g@[j]));
                }
            }
            let ghost before = g@;
            g.push(((o[0] as u16) * 256 + o[1] as u16) as u16);
            g.push(((o[2] as u16) * 256 + o[3] as u16) as u16);
            assert(before =~= groups_value(pv.drop_last()));
            assert(g@ =~= groups_value(pv.drop_last()) + octets_as_groups(o@));
        },
        None => {
            assert(!(dotted && pv.len() >= 1 && ipv4_octets(pv.last()) is Some));
            assert(all_groups(pv)) by {
                assert forall|j: int| 0 <= j < pv.len() implies (#[trigger] group_of(
                    pv[j],
                )) is Some by {
                    assert(group_of(pv[j]) == Some(g@[j]));
                }
            }
            assert(g@ =~= groups_value(pv));
        },
    }
    Some(g)
}

proof fn lemma_first_double_colon_in_range(s: Seq<char>, i: int)
    requires
        i >= 0,
    ensures
        first_double_colon(s, i) matches Some(k) ==> i <= k && k + 1 < s.len(),
    decreases s.len() - i,
{
    if i + 1 < s.len() && !(s[i] == ':' && s[i + 1] == ':') {
        lemma_first_double_colon_in_range(s, i + 1);
    }
}

/// Finds the first `::` in `v`.
fn find_double_colon(v: &Vec<char>) -> (r: Option<usize>)
    ensures
        match r {
            Some(k) => first_double_colon(v@, 0) == Some(k as int),
            None => first_double_colon(v@, 0) is None,
        },
{
    let mut i: usize = 0;
    while i < v.len()
        invariant
            i <= v@.len(),
            first_double_colon(v@, 0) == first_double_colon(v@, i as int),
        decreases v@.len() - i,
    {
        if i + 1 < v.len() && v[i] == ':' && v[i + 1] == ':' {
            return Some(i);
        }
        i = i + 1;
    }
    None
}

/// Reads the groups on one side of a `::`, `v[lo..hi]`.
fn side_groups_in(v: &Vec<char>, lo: usize, hi: usize, dotted: bool) -> (r: Option<Vec<u16>>)
    requires
        lo <= hi <= v@.len(),
    ensures
        r matches Some(g) ==> side_groups(v@.subrange(lo as int, hi as int), dotted) == Some(g@),
        r is None ==> side_groups(v@.subrange(lo as int, hi as int), dotted) is None,
{
    if lo == hi {
        Some(Vec::new())
    } else {
        run_groups_in(v, lo, hi, dotted)
    }
}

/// `head`, then zero groups, then `tail`: eight groups in all.
fn join_around_zeros(head: Vec<u16>, tail: &Vec<u16>) -> (r: Vec<u16>)
    requires
        head@.len() + tail@.len() <= 7,
    ensures
        r@ == head@ + Seq::new((8 - head@.len() - tail@.len()) as nat, |i: int| 0u16) + tail@,
{
    let mut g = head;
    let zeros = 8 - g.len() - tail.len();
    let ghost a = g@;
    let mut j: usize = 0;
    while j < zeros
        invariant
            j <= zeros,
            g@ =~= a + Seq::new(j as nat, |i: int| 0u16),
        decreases zeros - j,
    {
        g.push(0);
        j = j + 1;
    }
    let mut j: usize = 0;
    let ghost with_zeros = g@;
    while j < tail.len()
        invariant
            j <= tail@.len(),
            g@ =~= with_zeros + tail@.subrange(0, j as int),
        decreases tail@.len() - j,
    {
        g.push(tail[j]);
        j = j + 1;
    }
    assert(tail@.subrange(0, tail@.len() as int) =~= tail@);
    g
}

/// Reads an IPv6 address from the characters `v`.
fn ipv6_of_chars(v: &Vec<char>) -> (r: Option<[u16; 8]>)
    ensures
        r matches Some(a) ==> ipv6_groups(v@) == Some(a@),
        r is None ==> ipv6_groups(v@) is None,
{
    let g: Vec<u16> = match find_double_colon(v) {
        None => {
            let g = match run_groups_in(v, 0, v.len(), true) {
                Some(g) => g,
                None => {
                    assert(v@.subrange(0, v@.len() as int) =~= v@);
                    return None;
                },
            };
            assert(v@.subrange(0, v@.len() as int) =~= v@);
            if g.len() != 8 {
                return None;
            }
            g
        },
        Some(k) => {
            proof {
                lemma_first_double_colon_in_range(v@, 0);
                assert(k + 1 < v@.len());
            }
            assert(v@.subrange(0, k as int) =~= v@.take(k as int));
            assert(v@.subrange(k + 2, v@.len() as int) =~= v@.skip(k + 2));
            let head = match side_groups_in(v, 0, k, false) {
                Some(h) => h,
                None => return None,
            };
            let n = v.len();
            let tail = match side_groups_in(v, k + 2, n, true) {
                Some(t) => t,
                None => return None,
            };
            if head.len() > 7 || tail.len() > 7 - head.len() {
                return None;
            }
            join_around_zeros(head, &tail)
        },
    };
    let a = [g[0], g[1], g[2], g[3], g[4], g[5], g[6], g[7]];
    assert(a@ =~= g@);
    Some(a)
}

/// The address that the text `s` writes, if it writes one: a dotted IPv4 address is read
/// first, then an IPv6 address.
pub open spec fn literal_matches(s: Seq<char>, a: IpAddress) -> bool {
    match a {
        IpAddress::V4(o) => ipv4_octets(s) == Some(o@),
        IpAddress::V6(g) => ipv4_octets(s) is None && ipv6_groups(s) == Some(g@),
    }
}

pub open spec fn is_ip_literal(s: Seq<char>) -> bool {
    ipv4_octets(s) is Some || ipv6_groups(s) is Some
}

/// Reads an IP address literal, IPv4 or IPv6, as std's address parsers do.
pub fn parse_ip_literal(s: &str) -> (r: Option<IpAddress>)
    ensures
        r is Some <==> is_ip_literal(s@),
        r matches Some(a) ==> literal_matches(s@, a),
{
    let v = chars_of(s);
    assert(v@.subrange(0, v@.len() as int) =~= v@);
    match ipv4_in(&v, 0, v.len()) {
        Some(o) => Some(IpAddress::V4(o)),
        None => match ipv6_of_chars(&v) {
            Some(g) => Some(IpAddress::V6(g)),
            None => None,
        },
    }
}

/// The key under which a request is rate-limited: the address in the trusted
/// forwarded-client header where there is one and it is an IP literal, else the address
/// of the peer that sent the request.
pub open spec fn client_key_of(header: Option<Seq<char>>, peer: IpAddress, key: IpAddress) -> bool {
    match header {
        Some(h) => if is_ip_literal(h) {
            literal_matches(h, key)
        } else {
            key == peer
        },
        None => key == peer,
    }
}

/// Returns the address that a request is rate-limited under. `client_ip_header` is the
/// value of the trusted header in which an edge proxy in front of this one passes the
/// real client address, where the request has it; `remote_addr` is the connection's peer.
pub fn get_real_ip_addr(client_ip_header: Option<&str>, remote_addr: IpAddress) -> (r: IpAddress)
    ensures
        client_key_of(
            match client_ip_header {
                Some(h) => Some(h@),
                None => None,
            },
            remote_addr,
            r,
        ),
{
    match client_ip_header {
        Some(h) => match parse_ip_literal(h) {
            Some(a) => a,
            None => remote_addr,
        },
        None => remote_addr,
    }
}

} // verus!
