//! Listen targets: classifying `-l` arguments and resolving the targets
//! that need no lookup.
use vstd::prelude::*;
use vstd::utf8::encode_utf8;

use crate::protocol::text::{chars_of, is_whitespace, is_ws, word_is};

verus! {

/// An IP address: four octets, or eight 16-bit segments.
#[derive(Debug, Clone, Copy, PartialEq, Eq, Structural)]
pub enum IpAddress {
    V4(u8, u8, u8, u8),
    V6(u16, u16, u16, u16, u16, u16, u16, u16),
}

/// What a `-l` argument asks to listen on.
#[derive(Debug, PartialEq)]
pub enum BindTarget {
    /// `*` or `0.0.0.0`: every IPv4 address.
    AnyV4,
    /// `::`: every IPv6 address.
    AnyV6,
    /// An address.
    Ip(IpAddress),
    /// An interface, by name.
    Interface(String),
    /// A host name, to be looked up.
    Hostname(String),
}

pub enum BindTargetView {
    AnyV4,
    AnyV6,
    Ip(IpAddress),
    Interface(Seq<char>),
    Hostname(Seq<char>),
}

impl View for BindTarget {
    type V = BindTargetView;

    open spec fn view(&self) -> BindTargetView {
        match self {
            BindTarget::AnyV4 => BindTargetView::AnyV4,
            BindTarget::AnyV6 => BindTargetView::AnyV6,
            BindTarget::Ip(a) => BindTargetView::Ip(*a),
            BindTarget::Interface(n) => BindTargetView::Interface(n@),
            BindTarget::Hostname(h) => BindTargetView::Hostname(h@),
        }
    }
}

/// `s` without its leading whitespace.
pub open spec fn trim_start_ws(s: Seq<char>) -> Seq<char>
    decreases s.len(),
{
    if s.len() > 0 && is_ws(s[0]) {
        trim_start_ws(s.drop_first())
    } else {
        s
    }
}

/// `s` without its trailing whitespace.
pub open spec fn trim_end_ws(s: Seq<char>) -> Seq<char>
    decreases s.len(),
{
    if s.len() > 0 && is_ws(s.last()) {
        trim_end_ws(s.drop_last())
    } else {
        s
    }
}

/// `str::trim`: `s` without whitespace at either end.
pub open spec fn trim_ws(s: Seq<char>) -> Seq<char> {
    trim_end_ws(trim_start_ws(s))
}

proof fn lemma_trim_start(s: Seq<char>, a: nat)
    requires
        a <= s.len(),
        forall|k: int| 0 <= k < a ==> is_ws(#[trigger] s[k]),
        a == s.len() || !is_ws(s[a as int]),
    ensures
        trim_start_ws(s) == s.skip(a as int),
    decreases a,
{
    if a == 0 {
        assert(s.skip(0) =~= s);
    } else {
        let u = s.drop_first();
        assert forall|k: int| 0 <= k < a - 1 implies is_ws(#[trigger] u[k]) by {
            assert(u[k] == s[k + 1]);
        }
        lemma_trim_start(u, (a - 1) as nat);
        assert(u.skip(a - 1) =~= s.skip(a as int));
    }
}

proof fn lemma_trim_end(t: Seq<char>, m: nat)
    requires
        m <= t.len(),
        forall|k: int| m <= k < t.len() ==> is_ws(#[trigger] t[k]),
        m == 0 || !is_ws(t[m - 1]),
    ensures
        trim_end_ws(t) == t.take(m as int),
    decreases t.len() - m,
{
    if m == t.len() {
        assert(t.take(m as int) =~= t);
    } else {
        let u = t.drop_last();
        assert forall|k: int| m <= k < u.len() implies is_ws(#[trigger] u[k]) by {
            assert(u[k] == t[k]);
        }
        lemma_trim_end(u, m);
        assert(u.take(m as int) =~= t.take(m as int));
    }
}

/// The characters of `s` without whitespace at either end.
pub fn trim_chars(s: &Vec<char>) -> (res: Vec<char>)
    ensures
        res@ == trim_ws(s@),
{
    let n = s.len();
    let mut a: usize = 0;
    while a < n && is_whitespace(s[a])
        invariant
            n == s.len(),
            a <= n,
            forall|k: int| 0 <= k < a ==> is_ws(#[trigger] s@[k]),
        decreases n - a,
    {
        a = a + 1;
    }
    let mut b: usize = n;
    while b > a && is_whitespace(s[b - 1])
        invariant
            n == s.len(),
            a <= b <= n,
            forall|k: int| b <= k < n ==> is_ws(#[trigger] s@[k]),
        decreases b,
    {
        b = b - 1;
    }
    proof {
        lemma_trim_start(s@, a as nat);
        let t = s@.skip(a as int);
        assert forall|k: int| b - a <= k < t.len() implies is_ws(#[trigger] t[k]) by {
            assert(t[k] == s@[a + k]);
        }
        if b - a > 0 {
            assert(t[b - a - 1] == s@[b - 1]);
        }
        lemma_trim_end(t, (b - a) as nat);
        assert(t.take(b - a) =~= s@.subrange(a as int, b as int));
    }
    let mut out: Vec<char> = Vec::new();
    let mut i: usize = a;
    while i < b
        invariant
            n == s.len(),
            a <= i <= b <= n,
            out@ =~= s@.subrange(a as int, i as int),
        decreases b - i,
    {
        out.push(s[i]);
        i = i + 1;
    }
    out
}

/// Whether `s` holds the character `c`.
pub fn chars_contain(s: &Vec<char>, c: char) -> (res: bool)
    ensures
        res == s@.contains(c),
{
    let mut i: usize = 0;
    while i < s.len()
        invariant
            i <= s.len(),
            forall|k: int| 0 <= k < i ==> s@[k] != c,
        decreases s.len() - i,
    {
        if s[i] == c {
            assert(s@[i as int] == c);
            return true;
        }
        i = i + 1;
    }
    false
}

/// The target that a `-l` argument `s` names, given `ip`, the address that
/// `s` reads as (`s.parse::<IpAddr>()`), if any: `*`, `0.0.0.0` and `::`
/// (around whitespace) mean every address; then an address; then a name
/// without a dot is an interface; any other is a host name.
pub open spec fn classify_listen(s: Seq<char>, ip: Option<IpAddress>) -> BindTargetView {
    let t = trim_ws(s);
    if t == seq!['*'] || t == seq!['0', '.', '0', '.', '0', '.', '0'] {
        BindTargetView::AnyV4
    } else if t == seq![':', ':'] {
        BindTargetView::AnyV6
    } else {
        match ip {
            Some(a) => BindTargetView::Ip(a),
            None => if !s.contains('.') {
                BindTargetView::Interface(s)
            } else {
                BindTargetView::Hostname(s)
            },
        }
    }
}

/// The target that one `-l` argument names; `ip` is the address that `s`
/// reads as, if any.
pub fn parse_listen_arg(s: String, ip: Option<IpAddress>) -> (res: BindTarget)
    ensures
        res@ == classify_listen(s@, ip),
{
    let chars = chars_of(s.as_str());
    let t = trim_chars(&chars);
    let star = ['*'];
    let zeros = ['0', '.', '0', '.', '0', '.', '0'];
    let colons = [':', ':'];
    assert(star@ =~= seq!['*']);
    assert(zeros@ =~= seq!['0', '.', '0', '.', '0', '.', '0']);
    assert(colons@ =~= seq![':', ':']);
    if word_is(&t, &star) || word_is(&t, &zeros) {
        BindTarget::AnyV4
    } else if word_is(&t, &colons) {
        BindTarget::AnyV6
    } else {
        match ip {
            Some(a) => BindTarget::Ip(a),
            None => {
                if !chars_contain(&chars, '.') {
                    BindTarget::Interface(s)
                } else {
                    BindTarget::Hostname(s)
                }
            },
        }
    }
}

/// The targets that the `-l` arguments name, in order; each argument comes
/// with the address that it reads as, if any.
pub fn parse_listen(args: Vec<(String, Option<IpAddress>)>) -> (res: Vec<BindTarget>)
    ensures
        res.len() == args.len(),
        forall|i: int|
            0 <= i < args.len() ==> #[trigger] res[i]@ == classify_listen(args[i].0@, args[i].1),
{
    let mut targets: Vec<BindTarget> = Vec::new();
    let total = args.len();
    let mut rest = args;
    let ghost all = rest@;
    let mut taken: usize = 0;
    // arguments are handed out from the back, so collect them reversed first
    let mut reversed: Vec<(String, Option<IpAddress>)> = Vec::new();
    while rest.len() > 0
        invariant
            rest.len() + reversed.len() == all.len(),
            rest@ == all.subrange(0, rest.len() as int),
            forall|k: int| 0 <= k < reversed.len() ==> #[trigger] reversed@[k] == all[all.len() - 1 - k],
        decreases rest.len(),
    {
        let a = rest.pop().unwrap();
        assert(rest@ =~= all.subrange(0, rest.len() as int));
        reversed.push(a);
    }
    while reversed.len() > 0
        invariant
            taken + reversed.len() == all.len(),
            all.len() == total,
            targets.len() == taken,
            forall|k: int| 0 <= k < reversed.len() ==> #[trigger] reversed@[k] == all[all.len() - 1 - k],
            forall|i: int| 0 <= i < taken ==> #[trigger] targets[i]@ == classify_listen(all[i].0@, all[i].1),
        decreases reversed.len(),
    {
        let (s, ip) = reversed.pop().unwrap();
        let ghost idx = taken as int;
        assert(all[idx] == (s, ip));
        let target = parse_listen_arg(s, ip);
        targets.push(target);
        taken = taken + 1;
    }
    targets
}

/// Whether `a` is an IPv6 link-local address (`fe80::/10`).
pub open spec fn spec_is_link_local(a: IpAddress) -> bool {
    match a {
        IpAddress::V6(s0, _, _, _, _, _, _, _) => s0 & 0xffc0 == 0xfe80,
        IpAddress::V4(..) => false,
    }
}

/// Whether `addr` is an IPv6 link-local address (`fe80::/10`).
pub fn is_link_local(addr: &IpAddress) -> (res: bool)
    ensures
        res == spec_is_link_local(*addr),
{
    match addr {
        IpAddress::V6(s0, _, _, _, _, _, _, _) => *s0 & 0xffc0 == 0xfe80,
        IpAddress::V4(..) => false,
    }
}

/// `u8::to_ascii_lowercase`.
pub open spec fn ascii_lower(b: u8) -> u8 {
    if 65 <= b <= 90 {
        (b + 32) as u8
    } else {
        b
    }
}

/// `eq_ignore_ascii_case` on the bytes of two strings.
pub open spec fn same_ignoring_ascii_case(a: Seq<u8>, b: Seq<u8>) -> bool {
    a.len() == b.len() && forall|i: int| 0 <= i < a.len() ==> ascii_lower(#[trigger] a[i])
        == ascii_lower(b[i])
}

/// Whether `a` and `b` are equal when ASCII letters are compared without
/// case.
pub fn eq_ignore_ascii_case(a: &str, b: &str) -> (res: bool)
    ensures
        res == same_ignoring_ascii_case(encode_utf8(a@), encode_utf8(b@)),
{
    let x = a.as_bytes();
    let y = b.as_bytes();
    if x.len() != y.len() {
        return false;
    }
    let mut i: usize = 0;
    while i < x.len()
        invariant
            x@.len() == y@.len(),
            x@ == encode_utf8(a@),
            y@ == encode_utf8(b@),
            i <= x@.len(),
            forall|k: int| 0 <= k < i ==> ascii_lower(#[trigger] x@[k]) == ascii_lower(y@[k]),
        decreases x.len() - i,
    {
        let p = x[i];
        let q = y[i];
        let lp: u8 = if 65 <= p && p <= 90 { p + 32 } else { p };
        let lq: u8 = if 65 <= q && q <= 90 { q + 32 } else { q };
        assert(lp == ascii_lower(x@[i as int]) && lq == ascii_lower(y@[i as int]));
        if lp != lq {
            return false;
        }
        i = i + 1;
    }
    true
}

/// A network interface of the machine: its name and its addresses.
pub struct NetInterface {
    pub name: String,
    pub addrs: Vec<IpAddress>,
}

/// `addrs` without the link-local ones, in order.
pub open spec fn without_link_local(addrs: Seq<IpAddress>) -> Seq<IpAddress>
    decreases addrs.len(),
{
    if addrs.len() == 0 {
        seq![]
    } else {
        (if spec_is_link_local(addrs[0]) {
            seq![]
        } else {
            seq![addrs[0]]
        }) + without_link_local(addrs.drop_first())
    }
}

/// The addresses to listen on for the interface `name`: those of every
/// interface whose name equals it without regard to ASCII case, in order,
/// without the link-local ones.
pub open spec fn interface_addrs(name: Seq<char>, names: Seq<Seq<char>>, addrs: Seq<Seq<IpAddress>>) -> Seq<IpAddress>
    decreases names.len(),
{
    if names.len() == 0 || addrs.len() == 0 {
        seq![]
    } else {
        (if same_ignoring_ascii_case(encode_utf8(names[0]), encode_utf8(name)) {
            without_link_local(addrs[0])
        } else {
            seq![]
        }) + interface_addrs(name, names.drop_first(), addrs.drop_first())
    }
}

/// The names of `ifaces`, in order.
pub open spec fn iface_names(ifaces: Seq<NetInterface>) -> Seq<Seq<char>> {
    ifaces.map_values(|i: NetInterface| i.name@)
}

/// The address lists of `ifaces`, in order.
pub open spec fn iface_addr_lists(ifaces: Seq<NetInterface>) -> Seq<Seq<IpAddress>> {
    ifaces.map_values(|i: NetInterface| i.addrs@)
}

/// The addresses that need no lookup, for the targets that name them.
pub open spec fn fixed_addrs(t: BindTargetView) -> Option<Seq<IpAddress>> {
    match t {
        BindTargetView::AnyV4 => Some(seq![IpAddress::V4(0, 0, 0, 0)]),
        BindTargetView::AnyV6 => Some(seq![IpAddress::V6(0, 0, 0, 0, 0, 0, 0, 0)]),
        BindTargetView::Ip(a) => Some(seq![a]),
        _ => None,
    }
}

/// Resolves listen targets against the machine's interfaces and names.
pub struct SystemResolver;

impl SystemResolver {
    /// The addresses of a target that needs no lookup: the unspecified
    /// address for `AnyV4` and `AnyV6`, the address itself for `Ip`; none
    /// for interfaces and host names.
    pub fn resolve_fixed(&self, target: &BindTarget) -> (res: Option<Vec<IpAddress>>)
        ensures
            match (res, fixed_addrs(target@)) {
                (Some(v), Some(w)) => v@ == w,
                (None, None) => true,
                _ => false,
            },
    {
        match target {
            BindTarget::AnyV4 => {
                let mut v: Vec<IpAddress> = Vec::new();
                v.push(IpAddress::V4(0, 0, 0, 0));
                assert(v@ =~= seq![IpAddress::V4(0, 0, 0, 0)]);
                Some(v)
            },
            BindTarget::AnyV6 => {
                let mut v: Vec<IpAddress> = Vec::new();
                v.push(IpAddress::V6(0, 0, 0, 0, 0, 0, 0, 0));
                assert(v@ =~= seq![IpAddress::V6(0, 0, 0, 0, 0, 0, 0, 0)]);
                Some(v)
            },
            BindTarget::Ip(a) => {
                let mut v: Vec<IpAddress> = Vec::new();
                v.push(*a);
                assert(v@ =~= seq![*a]);
                Some(v)
            },
            _ => None,
        }
    }

    /// The addresses to listen on for the interface `name`, out of the
    /// machine's interfaces `ifaces`.
    pub fn interface_addresses(&self, name: &str, ifaces: &Vec<NetInterface>) -> (res: Vec<IpAddress>)
        ensures
            res@ == interface_addrs(name@, iface_names(ifaces@), iface_addr_lists(ifaces@)),
    {
        let ghost names = iface_names(ifaces@);
        let ghost lists = iface_addr_lists(ifaces@);
        let mut out: Vec<IpAddress> = Vec::new();
        let mut i: usize = 0;
        assert(names.skip(0) =~= names);
        assert(lists.skip(0) =~= lists);
        while i < ifaces.len()
            invariant
                i <= ifaces.len(),
                names == iface_names(ifaces@),
                lists == iface_addr_lists(ifaces@),
                interface_addrs(name@, names, lists) == out@ + interface_addrs(
                    name@,
                    names.skip(i as int),
                    lists.skip(i as int),
                ),
            decreases ifaces.len() - i,
        {
            let ghost before = out@;
            let iface = &ifaces[i];
            assert(names.skip(i as int)[0] == iface.name@);
            assert(lists.skip(i as int)[0] == iface.addrs@);
            assert(names.skip(i as int).drop_first() =~= names.skip(i + 1));
            assert(lists.skip(i as int).drop_first() =~= lists.skip(i + 1));
            if eq_ignore_ascii_case(iface.name.as_str(), name) {
                let ghost al = iface.addrs@;
                let mut j: usize = 0;
                assert(al.skip(0) =~= al);
                while j < iface.addrs.len()
                    invariant
                        j <= iface.addrs.len(),
                        al == iface.addrs@,
                        without_link_local(al) == out@.subrange(before.len() as int, out@.len() as int)
                            + without_link_local(al.skip(j as int)),
                        out@.subrange(0, before.len() as int) == before,
                        before.len() <= out@.len(),
                    decreases iface.addrs.len() - j,
                {
                    let a = iface.addrs[j];
                    assert(al.skip(j as int)[0] == a);
                    assert(al.skip(j as int).drop_first() =~= al.skip(j + 1));
                    let ghost mid = out@;
                    if !is_link_local(&a) {
                        out.push(a);
                    }
                    assert(out@.subrange(0, before.len() as int) =~= before);
                    assert(out@.subrange(before.len() as int, out@.len() as int) =~= mid.subrange(
                        before.len() as int,
                        mid.len() as int,
                    ) + (if spec_is_link_local(a) {
                        seq![]
                    } else {
                        seq![a]
                    }));
                    j = j + 1;
                }
                assert(al.skip(j as int) =~= Seq::<IpAddress>::empty());
                assert(without_link_local(Seq::<IpAddress>::empty()) =~= Seq::<IpAddress>::empty());
                assert(out@ =~= before + without_link_local(al));
            }
            i = i + 1;
        }
        assert(names.skip(i as int).len() == 0);
        assert(out@ =~= out@ + Seq::<IpAddress>::empty());
        out
    }
}

} // verus!
