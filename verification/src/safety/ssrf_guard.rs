//! Addresses from which files are fetched: only public ones.

use crate::error;
use crate::error::{Error, ErrorCode, ErrorView};
use crate::text;
use crate::text::CharClass;
use vstd::arithmetic::power2;
use vstd::bits;
use vstd::prelude::*;

verus! {

// ── addresses ──

/// A range of addresses: those that begin with the same bits.
#[derive(Debug, Clone, Copy, PartialEq, Eq, Structural)]
pub struct V4Net {
    pub addr: u32,
    /// How many bits are the same.
    pub prefix: u8,
}

/// Whether two addresses begin with the same bits.
pub open spec fn same_net(a: u32, b: u32, prefix: nat) -> bool {
    a as nat / power2::pow2((32 - prefix) as nat) == b as nat / power2::pow2((32 - prefix) as nat)
}

impl V4Net {
    pub fn contains(&self, ip: u32) -> (r: bool)
        requires
            self.prefix <= 32,
        ensures
            r == same_net(self.addr, ip, self.prefix as nat),
    {
        let shift: u64 = 32 - self.prefix as u64;
        let a: u64 = self.addr as u64;
        let b: u64 = ip as u64;
        proof {
            bits::lemma_u64_shr_is_div(a, shift);
            bits::lemma_u64_shr_is_div(b, shift);
        }
        (a >> shift) == (b >> shift)
    }
}

/// The address with four numbers.
pub open spec fn quad(a: u8, b: u8, c: u8, d: u8) -> u32 {
    (a * 0x100_0000 + b * 0x1_0000 + c * 0x100 + d) as u32
}

/// Addresses of the fourth version that are not public: of this host and
/// network, private, shared, local, for documentation and tests, for groups,
/// and reserved.
pub open spec fn v4_blocked(ip: u32) -> bool {
    ||| same_net(quad(0, 0, 0, 0), ip, 8)
    ||| same_net(quad(10, 0, 0, 0), ip, 8)
    ||| same_net(quad(127, 0, 0, 0), ip, 8)
    ||| same_net(quad(169, 254, 0, 0), ip, 16)
    ||| same_net(quad(172, 16, 0, 0), ip, 12)
    ||| same_net(quad(192, 168, 0, 0), ip, 16)
    ||| same_net(quad(100, 64, 0, 0), ip, 10)
    ||| same_net(quad(192, 0, 0, 0), ip, 24)
    ||| same_net(quad(192, 0, 2, 0), ip, 24)
    ||| same_net(quad(198, 18, 0, 0), ip, 15)
    ||| same_net(quad(198, 51, 100, 0), ip, 24)
    ||| same_net(quad(203, 0, 113, 0), ip, 24)
    ||| same_net(quad(224, 0, 0, 0), ip, 4)
    ||| same_net(quad(240, 0, 0, 0), ip, 4)
}

fn in_net(a: u8, b: u8, c: u8, d: u8, prefix: u8, ip: u32) -> (r: bool)
    requires
        prefix <= 32,
    ensures
        r == same_net(quad(a, b, c, d), ip, prefix as nat),
{
    let addr: u32 = (a as u32) * 0x100_0000 + (b as u32) * 0x1_0000 + (c as u32) * 0x100 + (
    d as u32);
    V4Net { addr, prefix }.contains(ip)
}

/// Whether an address of the fourth version is not public.
pub fn ipv4_blocked(ip: u32) -> (r: bool)
    ensures
        r == v4_blocked(ip),
{
    in_net(0, 0, 0, 0, 8, ip) || in_net(10, 0, 0, 0, 8, ip) || in_net(127, 0, 0, 0, 8, ip)
        || in_net(169, 254, 0, 0, 16, ip) || in_net(172, 16, 0, 0, 12, ip) || in_net(
        192,
        168,
        0,
        0,
        16,
        ip,
    ) || in_net(100, 64, 0, 0, 10, ip) || in_net(192, 0, 0, 0, 24, ip) || in_net(
        192,
        0,
        2,
        0,
        24,
        ip,
    ) || in_net(198, 18, 0, 0, 15, ip) || in_net(198, 51, 100, 0, 24, ip) || in_net(
        203,
        0,
        113,
        0,
        24,
        ip,
    ) || in_net(224, 0, 0, 0, 4, ip) || in_net(240, 0, 0, 0, 4, ip)
}

/// Whether an address of the sixth version stands for one of the fourth:
/// `::ffff:0:0/96`.
pub open spec fn stands_for_v4(s: Seq<u16>) -> bool {
    s[0] == 0 && s[1] == 0 && s[2] == 0 && s[3] == 0 && s[4] == 0 && s[5] == 0xffff
}

/// The address of the fourth version in the last two groups.
pub open spec fn v4_within(s: Seq<u16>) -> u32 {
    (s[6] * 0x1_0000 + s[7]) as u32
}

/// Addresses of the sixth version that are not public: the one of this host,
/// the one of nobody, local addresses (`fc00::/7` and `fe80::/10`), those of
/// groups (`ff00::/8`), and those that stand for one of the fourth version that
/// is not public.
pub open spec fn v6_blocked(s: Seq<u16>) -> bool {
    ||| s =~= seq![0u16, 0, 0, 0, 0, 0, 0, 1]
    ||| s =~= seq![0u16, 0, 0, 0, 0, 0, 0, 0]
    ||| 0xfc00 <= s[0] <= 0xfdff
    ||| 0xfe80 <= s[0] <= 0xfebf
    ||| 0xff00 <= s[0]
    ||| stands_for_v4(s) && v4_blocked(v4_within(s))
}

/// Whether an address of the sixth version is not public.
pub fn ipv6_blocked(s: &[u16; 8]) -> (r: bool)
    ensures
        r == v6_blocked(s@),
{
    let zeros = s[0] == 0 && s[1] == 0 && s[2] == 0 && s[3] == 0 && s[4] == 0 && s[5] == 0 && s[6]
        == 0;
    assert(zeros && s[7] == 1 ==> s@ =~= seq![0u16, 0, 0, 0, 0, 0, 0, 1]);
    assert(zeros && s[7] == 0 ==> s@ =~= seq![0u16, 0, 0, 0, 0, 0, 0, 0]);
    if zeros && (s[7] == 0 || s[7] == 1) {
        return true;
    }
    if s[0] == 0 && s[1] == 0 && s[2] == 0 && s[3] == 0 && s[4] == 0 && s[5] == 0xffff {
        let ip: u32 = (s[6] as u32) * 0x1_0000 + (s[7] as u32);
        return ipv4_blocked(ip);
    }
    let first: u16 = s[0];
    (first >= 0xfc00 && first <= 0xfdff) || (first >= 0xfe80 && first <= 0xfebf) || first >= 0xff00
}

/// The local and group ranges of the sixth version are blocked, `fc00::/7`,
/// `fe80::/10` and `ff00::/8`, and of what begins with another group than these
/// and zero nothing is.
pub proof fn local_v6_ranges_are_blocked(s: Seq<u16>)
    requires
        s.len() == 8,
        s[0] != 0,
    ensures
        v6_blocked(s) == (0xfc00 <= s[0] <= 0xfdff || 0xfe80 <= s[0] <= 0xfebf || 0xff00 <= s[0]),
{
}

/// An address of the sixth version that stands for one of the fourth is blocked
/// exactly where that one is.
pub proof fn v4_rule_holds_in_v6(s: Seq<u16>)
    requires
        s.len() == 8,
        stands_for_v4(s),
    ensures
        v6_blocked(s) == v4_blocked(v4_within(s)),
{
}

// ── hosts that are always allowed ──

/// A host name as it is compared: in lower case, without dots at its end.
pub open spec fn plain_host(host: Seq<char>) -> Seq<char> {
    error::lower_case(text::trim_end(host, CharClass::Dot))
}

/// Whether a host is the one of an entry or, where the entry begins with an
/// asterisk and a dot, the one behind them or below it.
pub open spec fn entry_matches(host: Seq<char>, entry: Seq<char>) -> bool {
    host == entry || (text::begins(entry, "*."@) && (host == entry.skip(2) || text::ends(
        host,
        entry.skip(1),
    )))
}

/// An entry for the hosts below a name admits that name and what stands in front
/// of it behind a dot, and no other name that ends alike.
pub proof fn only_hosts_below_are_admitted(front: Seq<char>, name: Seq<char>)
    requires
        front.len() > 0,
    ensures
        entry_matches(name, "*."@ + name),
        entry_matches(front + name, "*."@ + name) <==> front.last() == '.',
{
    reveal_strlit("*.");
    let entry = "*."@ + name;
    let host = front + name;
    let below = seq!['.'] + name;
    let at = front.len() - 1;
    assert(entry.subrange(0, 2) =~= "*."@);
    assert(entry.skip(2) =~= name);
    assert(entry.skip(1) =~= below);
    assert(host.len() > name.len());
    if front.last() == '.' {
        assert(host.subrange(at, at + below.len()) =~= below);
    }
    if text::ends(host, below) {
        assert(host.subrange(at, at + below.len())[0] == host[at]);
    }
    if host == entry {
        assert(host.len() == entry.len());
        assert(front[1] == host[1] && host[1] == entry[1]);
    }
}

/// Whether a host is allowed by one of the entries.
pub open spec fn allowed(host: Seq<char>, allowlist: Seq<Seq<char>>) -> bool {
    host.len() > 0 && exists|i: int|
        0 <= i < allowlist.len() && #[trigger] entry_matches(
            plain_host(host),
            plain_host(allowlist[i]),
        )
}

/// Whether a host in its plain form goes with an entry in its plain form.
pub fn matches_entry(host: &str, entry: &str) -> (r: bool)
    ensures
        r == entry_matches(host@, entry@),
{
    let h = text::chars_of(host);
    let e = text::chars_of(entry);
    let star = text::chars_of("*.");
    proof {
        reveal_strlit("*.");
        assert("*."@.len() == 2);
    }
    if text::same_chars(&h, &e) {
        return true;
    }
    if text::begins_with(&e, &star) {
        let name = text::slice_of(&e, 2, e.len());
        assert(name@ =~= e@.skip(2));
        let below = text::slice_of(&e, 1, e.len());
        assert(below@ =~= e@.skip(1));
        text::same_chars(&h, &name) || text::ends_with(&h, &below)
    } else {
        false
    }
}

fn plain_host_of(host: &str) -> (r: String)
    ensures
        r@ == plain_host(host@),
{
    let v = text::chars_of(host);
    let cut = text::string_of(&text::trimmed_end(&v, CharClass::Dot));
    error::to_lower_case(cut.as_str())
}

/// Whether a host is allowed: by its name, or by the end of its name.
pub fn host_allowed(host: &str, allowlist: &Vec<String>) -> (r: bool)
    ensures
        r == allowed(host@, text::texts(allowlist@)),
{
    if host.is_empty() {
        return false;
    }
    let h = plain_host_of(host);
    let mut i: usize = 0;
    while i < allowlist.len()
        invariant
            i <= allowlist@.len(),
            h@ == plain_host(host@),
            host@.len() > 0,
            forall|k: int|
                0 <= k < i ==> !#[trigger] entry_matches(
                    plain_host(host@),
                    plain_host(text::texts(allowlist@)[k]),
                ),
        decreases allowlist@.len() - i,
    {
        let e = plain_host_of(allowlist[i].as_str());
        assert(text::texts(allowlist@)[i as int] == allowlist@[i as int]@);
        if matches_entry(h.as_str(), e.as_str()) {
            assert(entry_matches(
                plain_host(host@),
                plain_host(text::texts(allowlist@)[i as int]),
            ));
            return true;
        }
        i += 1;
    }
    false
}

// ── addresses of files ──

/// The parts of an address that decide.
#[derive(Debug)]
pub struct ParsedUrl {
    pub scheme: String,
    pub host: String,
}

pub struct UrlView {
    pub scheme: Seq<char>,
    pub host: Seq<char>,
}

impl View for ParsedUrl {
    type V = UrlView;

    open spec fn view(&self) -> UrlView {
        UrlView { scheme: self.scheme@, host: self.host@ }
    }
}

/// The text before the first of a character, or all of it.
pub open spec fn before(s: Seq<char>, c: char) -> Seq<char> {
    s.take(text::index_of(s, c) as int)
}

/// The text behind the last of a character, or all of it.
pub open spec fn behind_last(s: Seq<char>, c: char) -> Seq<char>
    decreases s.len(),
{
    let i = text::index_of(s, c);
    if i < s.len() {
        behind_last(s.skip(i as int + 1), c)
    } else {
        s
    }
}

/// The position of the first mark between scheme and host, or the length.
pub open spec fn scheme_end(s: Seq<char>) -> nat
    decreases s.len(),
{
    if s.len() == 0 || text::begins(s, "://"@) {
        0
    } else {
        1 + scheme_end(s.skip(1))
    }
}

/// The host in what follows the scheme: up to the path, behind the user, and
/// without the port; one in brackets is what stands between them.
pub open spec fn host_of(rest: Seq<char>) -> Seq<char> {
    let authority = before(before(before(rest, '/'), '?'), '#');
    let hostport = behind_last(authority, '@');
    if hostport.len() > 0 && hostport[0] == '[' {
        before(hostport.skip(1), ']')
    } else {
        before(hostport, ':')
    }
}

/// The parts of an address. It is refused where it has no scheme, another one
/// than those of the web, or no host.
pub open spec fn url_of(u: Seq<char>) -> Option<UrlView> {
    let n = scheme_end(u);
    let scheme = u.take(n as int);
    let host = host_of(u.skip(n as int + 3));
    if n + 3 > u.len() {
        None
    } else if scheme != "http"@ && scheme != "https"@ {
        None
    } else if host.len() == 0 {
        None
    } else {
        Some(UrlView { scheme, host })
    }
}

fn cut_before(v: &Vec<char>, c: char) -> (r: Vec<char>)
    ensures
        r@ == before(v@, c),
{
    let i = text::index_of_char(v, c);
    proof {
        text::lemma_index_of(v@, c);
    }
    let r = text::slice_of(v, 0, i);
    assert(r@ =~= before(v@, c));
    r
}

fn cut_behind_last(v: Vec<char>, c: char) -> (r: Vec<char>)
    ensures
        r@ == behind_last(v@, c),
{
    let mut cur = v;
    let mut i = text::index_of_char(&cur, c);
    while i < cur.len()
        invariant
            i == text::index_of(cur@, c),
            behind_last(v@, c) == behind_last(cur@, c),
        decreases cur@.len(),
    {
        let next = text::slice_of(&cur, i + 1, cur.len());
        assert(next@ =~= cur@.skip(i as int + 1));
        cur = next;
        i = text::index_of_char(&cur, c);
    }
    cur
}

/// The mark lies within the text, or there is none.
proof fn lemma_scheme_end(s: Seq<char>)
    ensures
        scheme_end(s) <= s.len(),
        scheme_end(s) + 3 <= s.len() || scheme_end(s) == s.len(),
    decreases s.len(),
{
    reveal_strlit("://");
    if s.len() > 0 && !text::begins(s, "://"@) {
        lemma_scheme_end(s.skip(1));
    }
}

fn find_scheme_end(v: &Vec<char>) -> (r: usize)
    ensures
        r == scheme_end(v@),
{
    let mark = text::chars_of("://");
    let mut i: usize = 0;
    assert(v@.skip(0) =~= v@);
    while i < v.len()
        invariant
            i <= v@.len(),
            mark@ == "://"@,
            scheme_end(v@) == i + scheme_end(v@.skip(i as int)),
        decreases v@.len() - i,
    {
        let rest = text::slice_of(v, i, v.len());
        assert(rest@ =~= v@.skip(i as int));
        if text::begins_with(&rest, &mark) {
            return i;
        }
        assert(v@.skip(i as int).skip(1) =~= v@.skip(i + 1));
        i += 1;
    }
    i
}

/// The parts of an address.
pub fn parse(u: &str) -> (r: Result<ParsedUrl, ()>)
    ensures
        match r {
            Ok(p) => url_of(u@) == Some(p@),
            Err(_) => url_of(u@) is None,
        },
{
    let v = text::chars_of(u);
    let n = find_scheme_end(&v);
    proof {
        lemma_scheme_end(v@);
    }
    if v.len() < 3 || n > v.len() - 3 {
        return Err(());
    }
    let scheme = text::string_of(&text::slice_of(&v, 0, n));
    assert(scheme@ =~= u@.take(n as int));
    if !text::same(scheme.as_str(), "http") && !text::same(scheme.as_str(), "https") {
        return Err(());
    }
    let rest = text::slice_of(&v, n + 3, v.len());
    assert(rest@ =~= u@.skip(n as int + 3));
    let a = cut_before(&rest, '/');
    let b = cut_before(&a, '?');
    let authority = cut_before(&b, '#');
    let hostport = cut_behind_last(authority, '@');
    let host = if hostport.len() > 0 && hostport[0] == '[' {
        let inner = text::slice_of(&hostport, 1, hostport.len());
        assert(inner@ =~= hostport@.skip(1));
        cut_before(&inner, ']')
    } else {
        cut_before(&hostport, ':')
    };
    if host.len() == 0 {
        return Err(());
    }
    Ok(ParsedUrl { scheme, host: text::string_of(&host) })
}

// ── the check ──

/// The error for an address that is not fetched from.
pub open spec fn blocked_error(why: Seq<char>) -> ErrorView {
    ErrorView::Classified { code: ErrorCode::SsrfBlocked, message: why }
}

/// What is to be done with an address before it is fetched from.
#[derive(Debug)]
pub enum UrlCheck {
    /// Its host is always allowed.
    Allowed,
    /// The addresses of its host have to be looked at.
    Resolve(String),
}

/// What is to be done with an address, or why it is refused.
pub open spec fn url_check(u: Seq<char>, allowlist: Seq<Seq<char>>) -> Result<
    Option<Seq<char>>,
    ErrorView,
> {
    match url_of(u) {
        None => Err(blocked_error("invalid url"@)),
        Some(p) => if allowed(p.host, allowlist) {
            Ok(None)
        } else {
            Ok(Some(p.host))
        },
    }
}

pub open spec fn url_check_view(r: Result<UrlCheck, Error>) -> Result<Option<Seq<char>>, ErrorView> {
    match r {
        Ok(UrlCheck::Allowed) => Ok(None),
        Ok(UrlCheck::Resolve(host)) => Ok(Some(host@)),
        Err(e) => Err(e@),
    }
}

/// What is to be done with an address before it is fetched from.
pub fn check_url(u: &str, allowlist: &Vec<String>) -> (r: Result<UrlCheck, Error>)
    ensures
        url_check_view(r) == url_check(u@, text::texts(allowlist@)),
{
    match parse(u) {
        Err(_) => Err(Error::classified(ErrorCode::SsrfBlocked, "invalid url")),
        Ok(p) => {
            if host_allowed(p.host.as_str(), allowlist) {
                Ok(UrlCheck::Allowed)
            } else {
                Ok(UrlCheck::Resolve(p.host))
            }
        },
    }
}

/// An address that a host has, with the way it is written.
#[derive(Debug)]
pub enum Address {
    V4 { bits: u32, shown: String },
    V6 { groups: [u16; 8], shown: String },
}

impl Address {
    pub open spec fn is_blocked(&self) -> bool {
        match self {
            Address::V4 { bits, .. } => v4_blocked(*bits),
            Address::V6 { groups, .. } => v6_blocked(groups@),
        }
    }

    pub open spec fn written(&self) -> Seq<char> {
        match self {
            Address::V4 { shown, .. } => shown@,
            Address::V6 { shown, .. } => shown@,
        }
    }

    /// Whether the address is not public.
    pub fn blocked(&self) -> (r: bool)
        ensures
            r == self.is_blocked(),
    {
        match self {
            Address::V4 { bits, .. } => ipv4_blocked(*bits),
            Address::V6 { groups, .. } => ipv6_blocked(groups),
        }
    }

    fn text(&self) -> (r: &str)
        ensures
            r@ == self.written(),
    {
        match self {
            Address::V4 { shown, .. } => shown.as_str(),
            Address::V6 { shown, .. } => shown.as_str(),
        }
    }
}

/// Refuses a host one of whose addresses is not public; the first such address
/// is named.
pub fn assert_public_addresses(addrs: &Vec<Address>) -> (r: Result<(), Error>)
    ensures
        r is Ok <==> forall|i: int| 0 <= i < addrs@.len() ==> !(#[trigger] addrs@[i]).is_blocked(),
        r matches Err(e) ==> exists|i: int|
            {
                &&& 0 <= i < addrs@.len()
                &&& (#[trigger] addrs@[i]).is_blocked()
                &&& e@ == blocked_error(addrs@[i].written())
                &&& forall|k: int| 0 <= k < i ==> !(#[trigger] addrs@[k]).is_blocked()
            },
{
    let mut i: usize = 0;
    while i < addrs.len()
        invariant
            i <= addrs@.len(),
            forall|k: int| 0 <= k < i ==> !(#[trigger] addrs@[k]).is_blocked(),
        decreases addrs@.len() - i,
    {
        if addrs[i].blocked() {
            let e = Error::classified(ErrorCode::SsrfBlocked, addrs[i].text());
            assert(addrs@[i as int].is_blocked());
            return Err(e);
        }
        i += 1;
    }
    Ok(())
}

/// The error where the addresses of a host could not be found.
pub fn lookup_failed(why: &str) -> (r: Error)
    ensures
        r@ == blocked_error("dns lookup failed: "@ + why@),
{
    let message = text::cat("dns lookup failed: ", why);
    Error::classified(ErrorCode::SsrfBlocked, message.as_str())
}

/// Without entries no host is always allowed.
pub proof fn empty_allowlist_allows_nothing(host: Seq<char>)
    ensures
        !allowed(host, Seq::empty()),
{
}

/// A range with all bits holds one address, a range with none holds all.
pub proof fn net_bounds(a: u32, b: u32)
    ensures
        same_net(a, b, 32) <==> a == b,
        same_net(a, b, 0),
{
    power2::lemma2_to64();
    assert(power2::pow2(0) == 1);
    assert(power2::pow2(32) == 0x1_0000_0000);
    assert((32 - 32int) as nat == 0);
    assert(a as nat / 1 == a as nat && b as nat / 1 == b as nat);
    assert(a as nat / 0x1_0000_0000 == 0 && b as nat / 0x1_0000_0000 == 0);
}

proof fn lemma_net(addr: u32, ip: u32, prefix: nat, size: nat)
    requires
        prefix <= 32,
        size > 0,
        power2::pow2((32 - prefix) as nat) == size,
        addr as nat % size == 0,
    ensures
        same_net(addr, ip, prefix) <==> addr <= ip < addr + size,
{
    let a = addr as nat;
    let b = ip as nat;
    assert(a / size == b / size <==> a <= b < a + size) by (nonlinear_arith)
        requires
            size > 0,
            a % size == 0,
    ;
}

/// The addresses that are not public, as numbers: of this network, private, of this
/// host, local, shared, reserved, for documentation and tests, and for groups.
pub proof fn addresses_that_are_not_public(ip: u32)
    ensures
        v4_blocked(ip) <==> {
            ||| 0x0 <= ip <= 0xffffff
            ||| 0xa000000 <= ip <= 0xaffffff
            ||| 0x7f000000 <= ip <= 0x7fffffff
            ||| 0xa9fe0000 <= ip <= 0xa9feffff
            ||| 0xac100000 <= ip <= 0xac1fffff
            ||| 0xc0a80000 <= ip <= 0xc0a8ffff
            ||| 0x64400000 <= ip <= 0x647fffff
            ||| 0xc0000000 <= ip <= 0xc00000ff
            ||| 0xc0000200 <= ip <= 0xc00002ff
            ||| 0xc6120000 <= ip <= 0xc613ffff
            ||| 0xc6336400 <= ip <= 0xc63364ff
            ||| 0xcb007100 <= ip <= 0xcb0071ff
            ||| 0xe0000000 <= ip <= 0xefffffff
            ||| 0xf0000000 <= ip <= 0xffffffff
        },
{
    power2::lemma2_to64();
    lemma_net(quad(0, 0, 0, 0), ip, 8, 0x1000000);
    lemma_net(quad(10, 0, 0, 0), ip, 8, 0x1000000);
    lemma_net(quad(127, 0, 0, 0), ip, 8, 0x1000000);
    lemma_net(quad(169, 254, 0, 0), ip, 16, 0x10000);
    lemma_net(quad(172, 16, 0, 0), ip, 12, 0x100000);
    lemma_net(quad(192, 168, 0, 0), ip, 16, 0x10000);
    lemma_net(quad(100, 64, 0, 0), ip, 10, 0x400000);
    lemma_net(quad(192, 0, 0, 0), ip, 24, 0x100);
    lemma_net(quad(192, 0, 2, 0), ip, 24, 0x100);
    lemma_net(quad(198, 18, 0, 0), ip, 15, 0x20000);
    lemma_net(quad(198, 51, 100, 0), ip, 24, 0x100);
    lemma_net(quad(203, 0, 113, 0), ip, 24, 0x100);
    lemma_net(quad(224, 0, 0, 0), ip, 4, 0x10000000);
    lemma_net(quad(240, 0, 0, 0), ip, 4, 0x10000000);
}

/// The numbers of an address stand one behind the other.
pub proof fn numbers_of_an_address(a: u8, b: u8, c: u8, d: u8)
    ensures
        quad(a, b, c, d) == a * 16777216 + b * 65536 + c * 256 + d,
{
}

proof fn lemma_before(front: Seq<char>, back: Seq<char>, c: char)
    requires
        !front.contains(c),
        back.len() == 0 || back[0] == c,
    ensures
        before(front + back, c) == front,
{
    let s = front + back;
    let n = front.len() as int;
    assert forall|i: int| 0 <= i < n implies s[i] != c by {
        assert(front.contains(front[i]));
    }
    text::lemma_index_of_is(s, c, n);
    assert(s.take(n) =~= front);
}

proof fn lemma_behind_last(user: Seq<char>, host: Seq<char>)
    requires
        !user.contains('@'),
        !host.contains('@'),
    ensures
        behind_last(host, '@') == host,
        behind_last(user + seq!['@'] + host, '@') == host,
{
    let s = user + seq!['@'] + host;
    let n = user.len() as int;
    assert forall|i: int| 0 <= i < host.len() implies host[i] != '@' by {
        assert(host.contains(host[i]));
    }
    text::lemma_index_of_is(host, '@', host.len() as int);
    assert forall|i: int| 0 <= i < n implies s[i] != '@' by {
        assert(user.contains(user[i]));
    }
    text::lemma_index_of_is(s, '@', n);
    assert(s.skip(n + 1) =~= host);
}

proof fn lemma_scheme_ends(scheme: Seq<char>, rest: Seq<char>)
    requires
        !scheme.contains(':'),
    ensures
        scheme_end(scheme + "://"@ + rest) == scheme.len(),
    decreases scheme.len(),
{
    reveal_strlit("://");
    let s = scheme + "://"@ + rest;
    if scheme.len() == 0 {
        assert(s.subrange(0, 3) =~= "://"@);
    } else {
        assert(s[0] == scheme[0]);
        assert(scheme.contains(scheme[0]));
        if text::begins(s, "://"@) {
            assert(s.subrange(0, 3)[0] == s[0]);
        }
        let t = scheme.skip(1);
        assert forall|i: int| 0 <= i < t.len() implies t[i] != ':' by {
            assert(scheme.contains(scheme[i + 1]));
        }
        lemma_scheme_ends(t, rest);
        assert(s.skip(1) =~= t + "://"@ + rest);
    }
}

/// A part of an address that holds none of the marks between its parts.
pub open spec fn unmarked(s: Seq<char>) -> bool {
    &&& !s.contains('/')
    &&& !s.contains('?')
    &&& !s.contains('#')
    &&& !s.contains('@')
    &&& !s.contains(':')
    &&& !s.contains('[')
}

proof fn lemma_unmarked_pair(a: Seq<char>, b: Seq<char>, c: char)
    requires
        !a.contains(c),
        !b.contains(c),
    ensures
        !(a + b).contains(c),
{
    let s = a + b;
    assert forall|i: int| 0 <= i < s.len() implies s[i] != c by {
        if i < a.len() {
            assert(a.contains(a[i]));
        } else {
            assert(b.contains(b[i - a.len()]));
        }
    }
}

/// The host of an address of the web stands behind the scheme and the user, and
/// before the port and the path; an address of another scheme is none.
pub proof fn host_stands_between_user_and_port(
    scheme: Seq<char>,
    user: Seq<char>,
    host: Seq<char>,
    port: Seq<char>,
    path: Seq<char>,
)
    requires
        unmarked(user),
        unmarked(host),
        unmarked(port),
        host.len() > 0,
        !scheme.contains(':'),
    ensures
        ({
            let web = scheme == "http"@ || scheme == "https"@;
            let plain = url_of(scheme + "://"@ + (host + (seq!['/'] + path)));
            let whole = url_of(
                scheme + "://"@ + (user + seq!['@'] + host + (seq![':'] + port) + (seq!['/']
                    + path)),
            );
            &&& web ==> plain == Some(UrlView { scheme, host })
            &&& web ==> whole == Some(UrlView { scheme, host })
            &&& !web ==> plain is None && whole is None
        }),
{
    reveal_strlit("://");
    let slash = seq!['/'] + path;
    let colon = seq![':'] + port;
    let none = Seq::<char>::empty();
    lemma_scheme_ends(scheme, host + slash);
    let a = scheme + "://"@ + (host + slash);
    assert(a.take(scheme.len() as int) =~= scheme);
    assert(a.skip(scheme.len() as int + 3) =~= host + slash);
    lemma_before(host, slash, '/');
    assert(host + none =~= host);
    lemma_before(host, none, '?');
    lemma_before(host, none, '#');
    lemma_behind_last(user, host);
    lemma_before(host, none, ':');
    assert(host.contains(host[0]));
    let at = seq!['@'];
    let auth = user + at + host + colon;
    let b = scheme + "://"@ + (auth + slash);
    lemma_scheme_ends(scheme, auth + slash);
    assert(b.take(scheme.len() as int) =~= scheme);
    assert(b.skip(scheme.len() as int + 3) =~= auth + slash);
    let mark = seq![':'];
    assert(!at.contains('/') && !at.contains('?') && !at.contains('#'));
    assert(!mark.contains('/') && !mark.contains('?') && !mark.contains('#') && !mark.contains(
        '@',
    ));
    lemma_unmarked_pair(user, at, '/');
    lemma_unmarked_pair(user, at, '?');
    lemma_unmarked_pair(user, at, '#');
    lemma_unmarked_pair(user + at, host, '/');
    lemma_unmarked_pair(user + at, host, '?');
    lemma_unmarked_pair(user + at, host, '#');
    lemma_unmarked_pair(mark, port, '/');
    lemma_unmarked_pair(mark, port, '?');
    lemma_unmarked_pair(mark, port, '#');
    lemma_unmarked_pair(mark, port, '@');
    lemma_unmarked_pair(user + at + host, colon, '/');
    lemma_unmarked_pair(user + at + host, colon, '?');
    lemma_unmarked_pair(user + at + host, colon, '#');
    lemma_before(auth, slash, '/');
    assert(auth + none =~= auth);
    lemma_before(auth, none, '?');
    lemma_before(auth, none, '#');
    lemma_unmarked_pair(host, colon, '@');
    lemma_behind_last(user, host + colon);
    assert(auth =~= user + at + (host + colon));
    lemma_before(host, colon, ':');
    assert((host + colon)[0] == host[0]);
}

/// A good address is looked up by its host, unless that is always allowed; a bad
/// one is refused.
pub proof fn good_address_is_looked_up(u: Seq<char>, allowlist: Seq<Seq<char>>)
    ensures
        url_of(u) is None ==> url_check(u, allowlist) == Err::<Option<Seq<char>>, ErrorView>(
            ErrorView::Classified { code: ErrorCode::SsrfBlocked, message: "invalid url"@ },
        ),
        url_of(u) matches Some(p) ==> url_check(u, allowlist) == Ok::<
            Option<Seq<char>>,
            ErrorView,
        >(
            if allowed(p.host, allowlist) {
                None
            } else {
                Some(p.host)
            },
        ),
{
}

/// A host that stands in the list is allowed; a host without a name is not.
pub proof fn listed_host_is_allowed(host: Seq<char>, allowlist: Seq<Seq<char>>)
    ensures
        host.len() > 0 && allowlist.contains(host) ==> allowed(host, allowlist),
        host.len() == 0 ==> !allowed(host, allowlist),
{
    if host.len() > 0 && allowlist.contains(host) {
        let i = choose|i: int| 0 <= i < allowlist.len() && allowlist[i] == host;
        assert(entry_matches(plain_host(host), plain_host(allowlist[i])));
    }
}

/// An entry without an asterisk admits its own host alone.
pub proof fn plain_entry_admits_its_host(host: Seq<char>, entry: Seq<char>)
    requires
        entry.len() > 0,
        entry[0] != '*',
    ensures
        entry_matches(host, entry) <==> host == entry,
{
    reveal_strlit("*.");
    if text::begins(entry, "*."@) {
        assert(entry.subrange(0, 2)[0] == entry[0]);
    }
}

/// Of the addresses of the sixth version that begin with zeros, that of this host,
/// that of nobody, and those for an address of the fourth version that is not
/// public are blocked, and no other.
pub proof fn addresses_behind_zeros(s: Seq<u16>)
    requires
        s.len() == 8,
        s[0] == 0,
    ensures
        s[1] != 0 || s[2] != 0 || s[3] != 0 || s[4] != 0 ==> !v6_blocked(s),
        s[1] == 0 && s[2] == 0 && s[3] == 0 && s[4] == 0 ==> (v6_blocked(s) <==> {
            ||| s[5] == 0 && s[6] == 0 && s[7] <= 1
            ||| s[5] == 0xffff && v4_blocked((s[6] * 65536 + s[7]) as u32)
        }),
{
    let one = seq![0u16, 0, 0, 0, 0, 0, 0, 1];
    let none = seq![0u16, 0, 0, 0, 0, 0, 0, 0];
    if s[1] == 0 && s[2] == 0 && s[3] == 0 && s[4] == 0 && s[5] == 0 && s[6] == 0 {
        if s[7] == 1 {
            assert(s =~= one);
        }
        if s[7] == 0 {
            assert(s =~= none);
        }
    }
}

/// The host of an address ends where a question or a part of the page begins, and a
/// host in brackets is what stands between them.
pub proof fn host_ends_before_a_question(
    scheme: Seq<char>,
    host: Seq<char>,
    mark: char,
    rest: Seq<char>,
)
    requires
        scheme == "http"@ || scheme == "https"@,
        unmarked(host),
        host.len() > 0,
        mark == '?' || mark == '#',
        !rest.contains('/'),
        !rest.contains('?'),
        !rest.contains('#'),
    ensures
        url_of(scheme + "://"@ + (host + (seq![mark] + rest))) == Some(UrlView { scheme, host }),
{
    reveal_strlit("://");
    reveal_strlit("http");
    reveal_strlit("https");
    let none = Seq::<char>::empty();
    let tail = seq![mark] + rest;
    let all = host + tail;
    assert(!scheme.contains(':'));
    lemma_scheme_ends(scheme, all);
    let u = scheme + "://"@ + all;
    assert(u.take(scheme.len() as int) =~= scheme);
    assert(u.skip(scheme.len() as int + 3) =~= all);
    assert(!seq![mark].contains('/'));
    lemma_unmarked_pair(seq![mark], rest, '/');
    lemma_unmarked_pair(host, tail, '/');
    assert(all + none =~= all);
    lemma_before(all, none, '/');
    assert(host + none =~= host);
    if mark == '?' {
        lemma_before(host, tail, '?');
    } else {
        assert(!seq![mark].contains('?'));
        lemma_unmarked_pair(seq![mark], rest, '?');
        lemma_unmarked_pair(host, tail, '?');
        lemma_before(all, none, '?');
        lemma_before(host, tail, '#');
    }
    lemma_before(host, none, '#');
    lemma_behind_last(none, host);
    lemma_before(host, none, ':');
    assert(host.contains(host[0]));
}

/// A host in brackets is what stands between them.
pub proof fn host_stands_between_brackets(
    scheme: Seq<char>,
    host: Seq<char>,
    port: Seq<char>,
    path: Seq<char>,
)
    requires
        scheme == "http"@ || scheme == "https"@,
        host.len() > 0,
        !host.contains('/') && !host.contains('?') && !host.contains('#') && !host.contains('@')
            && !host.contains(']'),
        !port.contains('/') && !port.contains('?') && !port.contains('#') && !port.contains('@'),
    ensures
        url_of(scheme + "://"@ + (seq!['['] + host + (seq![']'] + port) + (seq!['/'] + path)))
            == Some(UrlView { scheme, host }),
{
    reveal_strlit("://");
    reveal_strlit("http");
    reveal_strlit("https");
    let none = Seq::<char>::empty();
    let open = seq!['['];
    let close = seq![']'];
    let back = close + port;
    let auth = open + host + back;
    let tail = seq!['/'] + path;
    assert(!scheme.contains(':'));
    lemma_scheme_ends(scheme, auth + tail);
    let u = scheme + "://"@ + (auth + tail);
    assert(u.take(scheme.len() as int) =~= scheme);
    assert(u.skip(scheme.len() as int + 3) =~= auth + tail);
    assert(!open.contains('/') && !open.contains('?') && !open.contains('#') && !open.contains('@'));
    assert(!close.contains('/') && !close.contains('?') && !close.contains('#')
        && !close.contains('@'));
    lemma_bracketed(host, port, '/');
    lemma_bracketed(host, port, '?');
    lemma_bracketed(host, port, '#');
    lemma_bracketed(host, port, '@');
    lemma_before(auth, tail, '/');
    assert(auth + none =~= auth);
    lemma_before(auth, none, '?');
    lemma_before(auth, none, '#');
    lemma_behind_last(none, auth);
    assert(auth.skip(1) =~= host + back);
    lemma_before(host, back, ']');
    assert(auth[0] == '[');
}

proof fn lemma_bracketed(host: Seq<char>, port: Seq<char>, c: char)
    requires
        !host.contains(c),
        !port.contains(c),
        c != '[',
        c != ']',
    ensures
        !(seq!['['] + host + (seq![']'] + port)).contains(c),
{
    let open = seq!['['];
    let close = seq![']'];
    assert(!open.contains(c));
    assert(!close.contains(c));
    lemma_unmarked_pair(open, host, c);
    lemma_unmarked_pair(close, port, c);
    lemma_unmarked_pair(open + host, close + port, c);
}

} // verus!
