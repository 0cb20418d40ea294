//! Parsing of the server's settings: comma-separated lists of domains and
//! ports, indices, and the URLs that name the Raft nodes.

use vstd::prelude::*;

verus! {

/// Appends `c` to `s`.
///
/// Calls `String::push`, whose documentation says that it appends the
/// given char to the end of the string; trusted to do exactly that.
#[verifier::external_body]
fn push_char(s: &mut String, c: char)
    ensures
        final(s)@ == old(s)@.push(c),
{
    s.push(c);
}

/// The characters of `s`, in order.
pub fn chars_of(s: &str) -> (v: Vec<char>)
    ensures
        v@ == s@,
{
    let mut v: Vec<char> = Vec::new();
    for c in iter: s.chars()
        invariant
            v@ == iter.seq().take(iter.index() as int),
    {
        v.push(c);
    }
    v
}

/// A string holding the characters `v`.
pub fn string_of(v: &Vec<char>) -> (s: String)
    ensures
        s@ == v@,
{
    let mut s = String::new();
    let mut i: usize = 0;
    while i < v.len()
        invariant
            i <= v@.len(),
            s@ == v@.take(i as int),
        decreases v@.len() - i,
    {
        push_char(&mut s, v[i]);
        i = i + 1;
        proof {
            assert(s@ =~= v@.take(i as int));
        }
    }
    proof {
        assert(v@.take(i as int) =~= v@);
    }
    s
}

/// The pieces of `s` between occurrences of `sep`, as `str::split` yields
/// them: one more piece than there are separators, empty pieces included.
pub open spec fn split_on(s: Seq<char>, sep: char) -> Seq<Seq<char>>
    decreases s.len(),
{
    if s.len() == 0 {
        seq![Seq::<char>::empty()]
    } else {
        let parts = split_on(s.drop_last(), sep);
        if s.last() == sep {
            parts.push(Seq::<char>::empty())
        } else {
            parts.update(parts.len() - 1, parts.last().push(s.last()))
        }
    }
}

/// Splits `s` at every `sep`.
pub fn split_chars(s: &Vec<char>, sep: char) -> (parts: Vec<Vec<char>>)
    ensures
        parts@.map_values(|p: Vec<char>| p@) == split_on(s@, sep),
{
    let mut parts: Vec<Vec<char>> = Vec::new();
    parts.push(Vec::new());
    let mut i: usize = 0;
    proof {
        assert(s@.take(0) =~= Seq::<char>::empty());
        assert(parts@.map_values(|p: Vec<char>| p@) =~= split_on(s@.take(0), sep));
    }
    while i < s.len()
        invariant
            i <= s@.len(),
            parts@.len() >= 1,
            parts@.map_values(|p: Vec<char>| p@) == split_on(s@.take(i as int), sep),
        decreases s@.len() - i,
    {
        let c = s[i];
        proof {
            assert(s@.take(i as int + 1).drop_last() =~= s@.take(i as int));
        }
        if c == sep {
            parts.push(Vec::new());
        } else {
            let mut piece = parts.pop().unwrap();
            piece.push(c);
            parts.push(piece);
        }
        i = i + 1;
        proof {
            assert(parts@.map_values(|p: Vec<char>| p@) =~= split_on(s@.take(i as int), sep));
        }
    }
    proof {
        assert(s@.take(i as int) =~= s@);
    }
    parts
}

/// The digit `c` stands for, when it is an ASCII decimal digit.
pub open spec fn is_digit(c: char) -> bool {
    '0' <= c <= '9'
}

pub open spec fn digit_value(c: char) -> nat {
    (c as int - '0' as int) as nat
}

/// The number written by the decimal digits `d`.
pub open spec fn decimal_value(d: Seq<char>) -> nat
    decreases d.len(),
{
    if d.len() == 0 {
        0
    } else {
        decimal_value(d.drop_last()) * 10 + digit_value(d.last())
    }
}

/// The number `s` writes as an optional `+` followed by one or more decimal
/// digits, as `str::parse` reads an unsigned integer; `None` for anything else.
pub open spec fn parse_unsigned(s: Seq<char>) -> Option<nat> {
    let d = digits_part(s);
    if d.len() > 0 && all_digits(d) {
        Some(decimal_value(d))
    } else {
        None
    }
}

/// `s` without its leading `+`, if it has one.
pub open spec fn digits_part(s: Seq<char>) -> Seq<char> {
    if s.len() > 0 && s[0] == '+' { s.drop_first() } else { s }
}

pub open spec fn all_digits(d: Seq<char>) -> bool {
    forall|i: int| 0 <= i < d.len() ==> is_digit(#[trigger] d[i])
}

/// A prefix of digits writes no more than the whole.
pub proof fn lemma_decimal_prefix(d: Seq<char>, i: int)
    requires
        0 <= i <= d.len(),
    ensures
        decimal_value(d.take(i)) <= decimal_value(d),
    decreases d.len() - i,
{
    if i < d.len() {
        lemma_decimal_prefix(d, i + 1);
        assert(d.take(i + 1).drop_last() =~= d.take(i));
    } else {
        assert(d.take(i) =~= d);
    }
}

/// Reads `s` as an unsigned number no larger than `max` (see
/// `parse_unsigned`); `None` when it is no such number.
pub fn parse_bounded(s: &Vec<char>, max: u64) -> (r: Option<u64>)
    ensures
        r == (match parse_unsigned(s@) {
            Some(v) => if v <= max { Some(v as u64) } else { None },
            None => None,
        }),
{
    let n = s.len();
    let mut start: usize = 0;
    if n > 0 && s[0] == '+' {
        start = 1;
    }
    let ghost d = digits_part(s@);
    proof {
        assert(d =~= s@.subrange(start as int, n as int));
    }
    if start == n {
        return None;
    }
    let mut value: u64 = 0;
    let mut i: usize = start;
    while i < n
        invariant
            start <= i <= n,
            n == s@.len(),
            d == s@.subrange(start as int, n as int),
            d == digits_part(s@),
            value <= max,
            value == decimal_value(d.take(i - start)),
            forall|j: int| 0 <= j < i - start ==> is_digit(#[trigger] d[j]),
        decreases n - i,
    {
        let c = s[i];
        proof {
            assert(d.take(i - start + 1).drop_last() =~= d.take(i - start));
            assert(d[i - start] == c);
        }
        if !('0' <= c && c <= '9') {
            proof {
                assert(!is_digit(d[i - start]));
                assert(!all_digits(d));
            }
            return None;
        }
        let digit = (c as u32 - '0' as u32) as u64;
        let next: u128 = value as u128 * 10 + digit as u128;
        if next > max as u128 {
            proof {
                lemma_decimal_prefix(d, i - start + 1);
                let k = i - start;
                assert(d.take(k + 1).last() == c);
                assert(digit_value(c) == digit);
                assert(decimal_value(d.take(k + 1)) == decimal_value(d.take(k)) * 10 + digit_value(c));
                assert(decimal_value(d.take(k + 1)) == next);
                assert(decimal_value(d) > max);
            }
            return None;
        }
        value = next as u64;
        i = i + 1;
    }
    proof {
        assert(d.take(i - start) =~= d);
    }
    Some(value)
}

/// Unicode White_Space, the characters `str::trim` removes.
pub open spec fn is_white_space(c: char) -> bool {
    ||| ('\u{9}' <= c && c <= '\u{d}')
    ||| c == ' '
    ||| c == '\u{85}'
    ||| c == '\u{a0}'
    ||| c == '\u{1680}'
    ||| ('\u{2000}' <= c && c <= '\u{200a}')
    ||| c == '\u{2028}'
    ||| c == '\u{2029}'
    ||| c == '\u{202f}'
    ||| c == '\u{205f}'
    ||| c == '\u{3000}'
}

pub fn is_white_space_char(c: char) -> (b: bool)
    ensures
        b == is_white_space(c),
{
    ('\u{9}' <= c && c <= '\u{d}') || c == ' ' || c == '\u{85}' || c == '\u{a0}' || c == '\u{1680}'
        || ('\u{2000}' <= c && c <= '\u{200a}') || c == '\u{2028}' || c == '\u{2029}' || c == '\u{202f}'
        || c == '\u{205f}' || c == '\u{3000}'
}

/// `s` without its leading white space.
pub open spec fn trim_start(s: Seq<char>) -> Seq<char>
    decreases s.len(),
{
    if s.len() > 0 && is_white_space(s[0]) { trim_start(s.drop_first()) } else { s }
}

/// `s` without its trailing white space.
pub open spec fn trim_end(s: Seq<char>) -> Seq<char>
    decreases s.len(),
{
    if s.len() > 0 && is_white_space(s.last()) { trim_end(s.drop_last()) } else { s }
}

/// `s` without leading and trailing white space, as `str::trim` gives it.
pub open spec fn trimmed(s: Seq<char>) -> Seq<char> {
    trim_end(trim_start(s))
}

proof fn lemma_trim_start_at(s: Seq<char>, a: int)
    requires
        0 <= a <= s.len(),
        forall|j: int| 0 <= j < a ==> is_white_space(#[trigger] s[j]),
        a == s.len() || !is_white_space(s[a]),
    ensures
        trim_start(s) == s.skip(a),
    decreases a,
{
    if a == 0 {
        assert(s.skip(0) =~= s);
    } else {
        assert forall|j: int| 0 <= j < a - 1 implies is_white_space(#[trigger] s.drop_first()[j]) by {
            assert(is_white_space(s[j + 1]));
        }
        lemma_trim_start_at(s.drop_first(), a - 1);
        assert(s.drop_first().skip(a - 1) =~= s.skip(a));
    }
}

proof fn lemma_trim_end_at(s: Seq<char>, b: int)
    requires
        0 <= b <= s.len(),
        forall|j: int| b <= j < s.len() ==> is_white_space(#[trigger] s[j]),
        b == 0 || !is_white_space(s[b - 1]),
    ensures
        trim_end(s) == s.take(b),
    decreases s.len() - b,
{
    if b == s.len() {
        assert(s.take(b) =~= s);
    } else {
        assert forall|j: int| b <= j < s.drop_last().len() implies is_white_space(#[trigger] s.drop_last()[j]) by {
            assert(is_white_space(s[j]));
        }
        assert(is_white_space(s[s.len() - 1]));
        lemma_trim_end_at(s.drop_last(), b);
        assert(s.drop_last().take(b) =~= s.take(b));
    }
}

/// `s` without leading and trailing white space.
pub fn trim_chars(s: &Vec<char>) -> (t: Vec<char>)
    ensures
        t@ == trimmed(s@),
{
    let n = s.len();
    let mut a: usize = 0;
    while a < n && is_white_space_char(s[a])
        invariant
            a <= n,
            n == s@.len(),
            forall|j: int| 0 <= j < a ==> is_white_space(#[trigger] s@[j]),
        decreases n - a,
    {
        a = a + 1;
    }
    proof {
        lemma_trim_start_at(s@, a as int);
    }
    let ghost rest = s@.skip(a as int);
    let mut b: usize = n;
    while b > a && is_white_space_char(s[b - 1])
        invariant
            a <= b <= n,
            n == s@.len(),
            rest == s@.skip(a as int),
            forall|j: int| b <= j < n ==> is_white_space(#[trigger] s@[j]),
        decreases b - a,
    {
        b = b - 1;
    }
    proof {
        assert forall|j: int| b - a <= j < rest.len() implies is_white_space(#[trigger] rest[j]) by {
            assert(is_white_space(s@[j + a]));
        }
        lemma_trim_end_at(rest, (b - a) as int);
    }
    let mut t: Vec<char> = Vec::new();
    let mut i: usize = a;
    while i < b
        invariant
            a <= i <= b,
            b <= n,
            n == s@.len(),
            t@ == s@.subrange(a as int, i as int),
        decreases b - i,
    {
        t.push(s[i]);
        i = i + 1;
        proof {
            assert(t@ =~= s@.subrange(a as int, i as int));
        }
    }
    proof {
        assert(t@ =~= rest.take((b - a) as int));
    }
    t
}

/// The ports listed in `s`, separated by commas; a piece that is not a
/// port number gives `default`.
pub fn parse_ports(s: &str, default: u16) -> (ports: Vec<u16>)
    ensures
        ports@.len() == split_on(s@, ',').len(),
        forall|i: int| 0 <= i < ports@.len() ==> #[trigger] ports@[i] == match parse_unsigned(split_on(s@, ',')[i]) {
            Some(v) => if v <= u16::MAX { v as u16 } else { default },
            None => default,
        },
{
    let chars = chars_of(s);
    let parts = split_chars(&chars, ',');
    let ghost pieces = split_on(s@, ',');
    let mut ports: Vec<u16> = Vec::new();
    let mut i: usize = 0;
    while i < parts.len()
        invariant
            i <= parts@.len(),
            parts@.map_values(|p: Vec<char>| p@) == pieces,
            pieces == split_on(s@, ','),
            ports@.len() == i,
            forall|j: int| 0 <= j < i ==> #[trigger] ports@[j] == match parse_unsigned(pieces[j]) {
                Some(v) => if v <= u16::MAX { v as u16 } else { default },
                None => default,
            },
        decreases parts@.len() - i,
    {
        proof {
            assert(pieces[i as int] == parts@[i as int]@);
        }
        let port = match parse_bounded(&parts[i], 65535) {
            Some(v) => v as u16,
            None => default,
        };
        ports.push(port);
        i = i + 1;
    }
    ports
}

/// The domains listed in `s`, separated by commas, each without
/// surrounding white space.
pub fn parse_domains(s: &str) -> (domains: Vec<String>)
    ensures
        domains@.len() == split_on(s@, ',').len(),
        forall|i: int| 0 <= i < domains@.len() ==> #[trigger] domains@[i]@ == trimmed(split_on(s@, ',')[i]),
{
    let chars = chars_of(s);
    let parts = split_chars(&chars, ',');
    let ghost pieces = split_on(s@, ',');
    let mut domains: Vec<String> = Vec::new();
    let mut i: usize = 0;
    while i < parts.len()
        invariant
            i <= parts@.len(),
            parts@.map_values(|p: Vec<char>| p@) == pieces,
            pieces == split_on(s@, ','),
            domains@.len() == i,
            forall|j: int| 0 <= j < i ==> #[trigger] domains@[j]@ == trimmed(pieces[j]),
        decreases parts@.len() - i,
    {
        proof {
            assert(pieces[i as int] == parts@[i as int]@);
        }
        let t = trim_chars(&parts[i]);
        domains.push(string_of(&t));
        i = i + 1;
    }
    domains
}

/// The index given by `val`, or 0 when there is none or it is no index.
pub fn parse_index(val: Option<&str>) -> (idx: usize)
    ensures
        idx == match val {
            Some(v) => match parse_unsigned(v@) {
                Some(n) => if n <= usize::MAX { n as usize } else { 0 },
                None => 0,
            },
            None => 0,
        },
{
    match val {
        Some(v) => {
            let chars = chars_of(v);
            match parse_bounded(&chars, usize::MAX as u64) {
                Some(n) => n as usize,
                None => 0,
            }
        },
        None => 0,
    }
}

/// The character of decimal digit `d`.
pub open spec fn digit_char(d: nat) -> char {
    (48 + d) as char
}

/// `n` written in decimal, without leading zeros.
pub open spec fn decimal_string(n: nat) -> Seq<char>
    decreases n,
{
    if n < 10 {
        seq![digit_char(n)]
    } else {
        decimal_string(n / 10).push(digit_char(n % 10))
    }
}

proof fn lemma_decimal_string_digits(n: nat)
    ensures
        decimal_string(n).len() > 0,
        all_digits(decimal_string(n)),
        decimal_value(decimal_string(n)) == n,
        decimal_string(n)[0] != '+',
    decreases n,
{
    let d = n % 10;
    assert(digit_char(d) as int == 48 + d);
    assert(digit_value(digit_char(d)) == d);
    if n < 10 {
        let s = decimal_string(n);
        assert(s.drop_last() =~= Seq::<char>::empty());
        assert(decimal_value(s) == decimal_value(s.drop_last()) * 10 + digit_value(s.last()));
    }
    if n >= 10 {
        lemma_decimal_string_digits(n / 10);
        let s = decimal_string(n);
        assert(s.drop_last() =~= decimal_string(n / 10));
        assert forall|i: int| 0 <= i < s.len() implies is_digit(#[trigger] s[i]) by {
            if i < s.len() - 1 {
                assert(s[i] == decimal_string(n / 10)[i]);
            }
        }
    }
}

/// A number written in decimal reads back as itself: what `push_decimal`
/// writes (the port in a node URL, for one), `parse_unsigned` reads as the
/// same number.
pub proof fn lemma_decimal_roundtrip(n: nat)
    ensures
        parse_unsigned(decimal_string(n)) == Some(n),
{
    lemma_decimal_string_digits(n);
    assert(digits_part(decimal_string(n)) == decimal_string(n));
}

/// Appends `n` written in decimal to `s`.
pub fn push_decimal(s: &mut String, n: u64)
    ensures
        final(s)@ == old(s)@ + decimal_string(n as nat),
    decreases n,
{
    if n >= 10 {
        push_decimal(s, n / 10);
    }
    let d = (n % 10) as u8;
    let c = (48u8 + d) as char;
    assert(c == digit_char((n % 10) as nat));
    push_char(s, c);
    proof {
        if n >= 10 {
            assert(s@ =~= old(s)@ + decimal_string(n as nat));
        } else {
            assert(s@ =~= old(s)@ + decimal_string(n as nat));
        }
    }
}

/// Appends the characters of `t` to `s`.
fn push_all(s: &mut String, t: &String)
    ensures
        final(s)@ == old(s)@ + t@,
{
    let chars = chars_of(t.as_str());
    let mut i: usize = 0;
    while i < chars.len()
        invariant
            i <= chars@.len(),
            chars@ == t@,
            s@ == old(s)@ + t@.take(i as int),
        decreases chars@.len() - i,
    {
        push_char(s, chars[i]);
        i = i + 1;
        proof {
            assert(s@ =~= old(s)@ + t@.take(i as int));
        }
    }
    proof {
        assert(t@.take(i as int) =~= t@);
    }
}

/// The URL that names the Raft node of `domain` listening on `port`:
/// `http://<domain>:<port>`.
pub open spec fn node_url_spec(domain: Seq<char>, port: u16) -> Seq<char> {
    seq!['h', 't', 't', 'p', ':', '/', '/'] + domain + seq![':'] + decimal_string(port as nat)
}

pub fn node_url(domain: &String, port: u16) -> (url: String)
    ensures
        url@ == node_url_spec(domain@, port),
{
    let mut url = String::new();
    push_char(&mut url, 'h');
    push_char(&mut url, 't');
    push_char(&mut url, 't');
    push_char(&mut url, 'p');
    push_char(&mut url, ':');
    push_char(&mut url, '/');
    push_char(&mut url, '/');
    push_all(&mut url, domain);
    push_char(&mut url, ':');
    push_decimal(&mut url, port as u64);
    proof {
        assert(url@ =~= node_url_spec(domain@, port));
    }
    url
}

/// The address the Raft node serves on: `0.0.0.0:<port>`.
pub open spec fn serve_addr_spec(port: u16) -> Seq<char> {
    seq!['0', '.', '0', '.', '0', '.', '0', ':'] + decimal_string(port as nat)
}

/// The chat server's settings.
pub struct Config {
    pub domains: Vec<String>,
    pub web_ports: Vec<u16>,
    pub socket_ports: Vec<u16>,
    pub rpc_ports: Vec<u16>,
    pub version: String,
    pub self_domain_idx: usize,
    pub raft_mock_flag: bool,
}

impl Config {
    /// The Raft configuration of this server: it serves RPCs on its own RPC
    /// port, is named by the URL of its own domain and RPC port, and has as
    /// peers the URLs of all other domains with their RPC ports. Its
    /// election timeout is 1000 ms (the half-open range `1000..1001`, which
    /// holds that one value) and its heartbeat interval 250 ms.
    pub fn raft_config(
        &self,
        persistent_state_path: String,
        persistent_state_backup_path: String,
        wal_path: String,
    ) -> (rc: crate::config::RaftConfig)
        requires
            self.self_domain_idx < self.domains@.len(),
            self.domains@.len() <= self.rpc_ports@.len(),
        ensures
            rc.serve_addr@ == serve_addr_spec(self.rpc_ports@[self.self_domain_idx as int]),
            rc.self_id@ == node_url_spec(self.domains@[self.self_domain_idx as int]@, self.rpc_ports@[self.self_domain_idx as int]),
            rc.peers@.len() == self.domains@.len() - 1,
            forall|j: int| 0 <= j < rc.peers@.len() ==> {
                let k = if j < self.self_domain_idx { j } else { j + 1 };
                #[trigger] rc.peers@[j]@ == node_url_spec(self.domains@[k]@, self.rpc_ports@[k])
            },
            rc.election_duration == (1000u64, 1001u64),
            rc.heartbeat_duration == 250,
            rc.persistent_state_path == persistent_state_path,
            rc.persistent_state_backup_path == persistent_state_backup_path,
            rc.wal_path == wal_path,
    {
        let me = self.self_domain_idx;
        let mut serve_addr = String::new();
        push_char(&mut serve_addr, '0');
        push_char(&mut serve_addr, '.');
        push_char(&mut serve_addr, '0');
        push_char(&mut serve_addr, '.');
        push_char(&mut serve_addr, '0');
        push_char(&mut serve_addr, '.');
        push_char(&mut serve_addr, '0');
        push_char(&mut serve_addr, ':');
        push_decimal(&mut serve_addr, self.rpc_ports[me] as u64);
        proof {
            assert(serve_addr@ =~= serve_addr_spec(self.rpc_ports@[me as int]));
        }
        let self_id = node_url(&self.domains[me], self.rpc_ports[me]);
        let mut peers: Vec<String> = Vec::new();
        let mut idx: usize = 0;
        while idx < self.domains.len()
            invariant
                me < self.domains@.len(),
                self.domains@.len() <= self.rpc_ports@.len(),
                idx <= self.domains@.len(),
                peers@.len() == if idx <= me { idx as int } else { idx - 1 },
                forall|j: int| 0 <= j < peers@.len() ==> {
                    let k = if j < me { j } else { j + 1 };
                    #[trigger] peers@[j]@ == node_url_spec(self.domains@[k]@, self.rpc_ports@[k])
                },
            decreases self.domains@.len() - idx,
        {
            if idx != me {
                let url = node_url(&self.domains[idx], self.rpc_ports[idx]);
                peers.push(url);
            }
            idx = idx + 1;
        }
        crate::config::RaftConfig {
            serve_addr,
            self_id,
            peers,
            election_duration: (1000, 1001),
            heartbeat_duration: 250,
            persistent_state_path,
            persistent_state_backup_path,
            wal_path,
        }
    }
}

} // verus!
