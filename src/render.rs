use vstd::prelude::*;

use crate::filter::{Expr, IpVersion, Protocol};
use crate::parser::{
    addr_atom, and_tail, digit_value, groups_from, in_class, is_digit, is_hex, keyword,
    num_value, number_atom, number_max, operator_after, or_tail, parse_and, parse_bracket,
    parse_filter, parse_ip, parse_or, parse_term, plain_atom, pow_of, run_end, skip_ws,
    AddrFormat, CharClass, Kw,
};
use crate::types::IpAddr;

verus! {

/// The character of a digit below sixteen, lower case past nine.
pub open spec fn digit_char(d: int) -> char {
    if d == 0 {
        '0'
    } else if d == 1 {
        '1'
    } else if d == 2 {
        '2'
    } else if d == 3 {
        '3'
    } else if d == 4 {
        '4'
    } else if d == 5 {
        '5'
    } else if d == 6 {
        '6'
    } else if d == 7 {
        '7'
    } else if d == 8 {
        '8'
    } else if d == 9 {
        '9'
    } else if d == 10 {
        'a'
    } else if d == 11 {
        'b'
    } else if d == 12 {
        'c'
    } else if d == 13 {
        'd'
    } else if d == 14 {
        'e'
    } else {
        'f'
    }
}

/// The digits of `n` in base `b` (ten or sixteen), most significant first,
/// without leading zeros.
pub open spec fn digits(n: nat, b: nat) -> Seq<char>
    decreases n,
{
    if b == 16 {
        if n < 16 {
            seq![digit_char(n as int)]
        } else {
            digits(n / 16, b).push(digit_char((n % 16) as int))
        }
    } else {
        if n < 10 {
            seq![digit_char(n as int)]
        } else {
            digits(n / 10, b).push(digit_char((n % 10) as int))
        }
    }
}

proof fn lemma_digit_char(d: int)
    requires
        0 <= d < 16,
    ensures
        digit_value(digit_char(d)) == d,
        is_hex(digit_char(d)),
        d < 10 <==> is_digit(digit_char(d)),
        digit_char(d) != '.' && digit_char(d) != ':' && digit_char(d) != ']',
        digit_char(d) != ' ' && digit_char(d) != '\t',
{
}

pub open spec fn class_of_base(b: nat) -> CharClass {
    if b == 10 {
        CharClass::Digit
    } else {
        CharClass::Hex
    }
}

/// The digits of a number read back as that number, each in the class of
/// its base.
proof fn lemma_digits_value(n: nat, b: nat, s: Seq<char>, i: int)
    requires
        b == 10 || b == 16,
        0 <= i,
        i + digits(n, b).len() <= s.len(),
        s.subrange(i, i + digits(n, b).len()) == digits(n, b),
    ensures
        digits(n, b).len() >= 1,
        num_value(s, i, i + digits(n, b).len(), b as int) == n,
        forall|j: int|
            i <= j < i + digits(n, b).len() ==> in_class(#[trigger] s[j], class_of_base(b))
                && in_class(s[j], CharClass::Addr) && s[j] != ']' && s[j] != '.' && s[j] != ':',
    decreases n,
{
    let d = digits(n, b);
    if n < b {
        lemma_digit_char(n as int);
        assert(s[i] == d[0]);
        assert(num_value(s, i, i + 1, b as int) == num_value(s, i, i, b as int) * b + digit_value(
            s[i],
        ));
    } else {
        let q = n / b;
        let r = n % b;
        let dq = digits(q, b);
        assert(d == dq.push(digit_char(r as int)));
        assert(s.subrange(i, i + dq.len()) =~= dq) by {
            assert forall|j: int| 0 <= j < dq.len() implies s.subrange(i, i + dq.len())[j] == dq[j] by {
                assert(s.subrange(i, i + d.len())[j] == d[j]);
            }
        }
        lemma_digits_value(q, b, s, i);
        lemma_digit_char(r as int);
        let e = i + d.len();
        assert(s[e - 1] == d[d.len() - 1]);
        assert(num_value(s, i, e, b as int) == num_value(s, i, e - 1, b as int) * b + digit_value(
            s[e - 1],
        ));
        vstd::arithmetic::div_mod::lemma_fundamental_div_mod(n as int, b as int);
        assert forall|j: int| i <= j < e implies in_class(#[trigger] s[j], class_of_base(b))
            && in_class(s[j], CharClass::Addr) && s[j] != ']' && s[j] != '.' && s[j] != ':' by {
            if j < e - 1 {
            } else {
                assert(s[j] == digit_char(r as int));
            }
        }
    }
}

/// A run of characters of a class, followed by the end or by a character
/// outside the class, ends there.
proof fn lemma_run_end_exact(s: Seq<char>, i: int, m: int, e: int, class: CharClass)
    requires
        0 <= i <= m <= e <= s.len(),
        forall|j: int| i <= j < m ==> in_class(#[trigger] s[j], class),
        m == e || !in_class(s[m], class),
    ensures
        run_end(s, i, e, class) == m,
    decreases m - i,
{
    if i < m {
        lemma_run_end_exact(s, i + 1, m, e, class);
    }
}

/// Where a run of a class ends: not before its start, not past `e`, every
/// character before it in the class, and the one at it outside the class.
proof fn lemma_run_end_bounds(s: Seq<char>, i: int, e: int, class: CharClass)
    requires
        0 <= i <= e <= s.len(),
    ensures
        i <= run_end(s, i, e, class) <= e,
        forall|j: int| i <= j < run_end(s, i, e, class) ==> in_class(#[trigger] s[j], class),
        run_end(s, i, e, class) < e ==> !in_class(s[run_end(s, i, e, class)], class),
    decreases e - i,
{
    if i < e && in_class(s[i], class) {
        lemma_run_end_bounds(s, i + 1, e, class);
    }
}

proof fn lemma_digits_len_dec(n: nat)
    requires
        n < 1000,
    ensures
        digits(n, 10).len() <= 3,
{
    reveal_with_fuel(digits, 4);
    if n >= 10 {
        assert(n / 10 < 100);
        if n / 10 >= 10 {
            assert(n / 10 / 10 < 10);
        }
    }
}

proof fn lemma_digits_len_hex(n: nat)
    requires
        n < 65536,
    ensures
        digits(n, 16).len() <= 4,
{
    reveal_with_fuel(digits, 5);
    if n >= 16 {
        assert(n / 16 < 4096);
        if n / 16 >= 16 {
            assert(n / 16 / 16 < 256);
            if n / 16 / 16 >= 16 {
                assert(n / 16 / 16 / 16 < 16);
            }
        }
    }
}

/// The `c` lowest groups of `x` in radix `r`, most significant first.
pub open spec fn group_vals(x: nat, r: nat, c: nat) -> Seq<nat>
    decreases c,
{
    if c == 0 {
        seq![]
    } else {
        group_vals(x / r, r, (c - 1) as nat).push(x % r)
    }
}

/// The groups read most significant first into `acc`.
pub open spec fn fold_from(acc: int, vals: Seq<nat>, r: int) -> int
    decreases vals.len(),
{
    if vals.len() == 0 {
        acc
    } else {
        fold_from(acc * r + vals[0], vals.drop_first(), r)
    }
}

/// The groups written in base `b`, split by `sep`.
pub open spec fn groups_text(vals: Seq<nat>, sep: char, b: nat) -> Seq<char>
    decreases vals.len(),
{
    if vals.len() == 0 {
        seq![]
    } else if vals.len() == 1 {
        digits(vals[0], b)
    } else {
        digits(vals[0], b) + seq![sep] + groups_text(vals.drop_first(), sep, b)
    }
}

/// An address as the filter language writes it: dotted-quad, or the eight
/// colon-separated hexadecimal groups.
pub open spec fn render_ip(ip: IpAddr) -> Seq<char> {
    match ip {
        IpAddr::V4(x) => groups_text(group_vals(x as nat, 256, 4), '.', 10),
        IpAddr::V6(x) => groups_text(group_vals(x as nat, 65536, 8), ':', 16),
    }
}

proof fn lemma_fold_push(acc: int, vals: Seq<nat>, v: nat, r: int)
    ensures
        fold_from(acc, vals.push(v), r) == fold_from(acc, vals, r) * r + v,
    decreases vals.len(),
{
    let pv = vals.push(v);
    assert(pv[0] == if vals.len() > 0 {
        vals[0]
    } else {
        v
    });
    if vals.len() > 0 {
        assert(pv.drop_first() =~= vals.drop_first().push(v));
        lemma_fold_push(acc * r + vals[0], vals.drop_first(), v, r);
        assert(fold_from(acc, pv, r) == fold_from(acc * r + vals[0], vals.drop_first().push(v), r));
        assert(fold_from(acc, vals, r) == fold_from(acc * r + vals[0], vals.drop_first(), r));
    } else {
        assert(pv.drop_first() =~= Seq::<nat>::empty());
        assert(fold_from(acc, pv, r) == fold_from(acc * r + v, Seq::<nat>::empty(), r));
        assert(fold_from(acc * r + v, Seq::<nat>::empty(), r) == acc * r + v);
        assert(fold_from(acc, vals, r) == acc);
    }
}

proof fn lemma_group_vals(x: nat, r: nat, c: nat)
    requires
        r >= 2,
        x < pow_of(r as int, c),
    ensures
        group_vals(x, r, c).len() == c,
        fold_from(0, group_vals(x, r, c), r as int) == x,
        forall|k: int| 0 <= k < c ==> #[trigger] group_vals(x, r, c)[k] < r,
    decreases c,
{
    if c > 0 {
        let p = pow_of(r as int, (c - 1) as nat);
        let q = x / r;
        vstd::arithmetic::div_mod::lemma_fundamental_div_mod(x as int, r as int);
        assert(q < p) by (nonlinear_arith)
            requires
                x < r * p,
                x == r * q + x % r,
                x % r >= 0,
                r >= 2,
        ;
        lemma_group_vals(q, r, (c - 1) as nat);
        lemma_fold_push(0, group_vals(q, r, (c - 1) as nat), x % r, r as int);
        assert(q * r == r * q) by (nonlinear_arith);
        let vals = group_vals(x, r, c);
        assert forall|k: int| 0 <= k < c implies #[trigger] vals[k] < r by {
            if k < c - 1 {
                assert(vals[k] == group_vals(q, r, (c - 1) as nat)[k]);
            }
        }
    }
}

proof fn lemma_text_split(s: Seq<char>, i: int, e: int, a: Seq<char>, b: Seq<char>)
    requires
        0 <= i <= e <= s.len(),
        s.subrange(i, e) == a + b,
    ensures
        i + a.len() <= e,
        s.subrange(i, i + a.len()) == a,
        s.subrange(i + a.len(), e) == b,
        forall|j: int| 0 <= j < a.len() ==> s[i + j] == #[trigger] a[j],
        forall|j: int| 0 <= j < b.len() ==> s[i + a.len() + j] == #[trigger] b[j],
{
    assert(s.subrange(i, e).len() == e - i);
    assert((a + b).len() == a.len() + b.len());
    assert(e - i == a.len() + b.len());
    assert forall|j: int| 0 <= j < a.len() implies s[i + j] == #[trigger] a[j] by {
        assert(s.subrange(i, e)[j] == s[i + j]);
        assert((a + b)[j] == a[j]);
    }
    assert forall|j: int| 0 <= j < b.len() implies s[i + a.len() + j] == #[trigger] b[j] by {
        assert(s.subrange(i, e)[a.len() + j] == s[i + a.len() + j]);
        assert((a + b)[a.len() + j] == b[j]);
    }
    assert(s.subrange(i, i + a.len()) =~= a);
    assert(s.subrange(i + a.len(), e) =~= b);
}

proof fn lemma_groups_parse(
    s: Seq<char>,
    i: int,
    e: int,
    n: int,
    acc: int,
    f: AddrFormat,
    vals: Seq<nat>,
)
    requires
        0 <= n < f.groups(),
        vals.len() == f.groups() - n,
        forall|k: int| 0 <= k < vals.len() ==> #[trigger] vals[k] < f.radix(),
        0 <= i <= e <= s.len(),
        s.subrange(i, e) == groups_text(vals, f.sep(), f.base() as nat),
    ensures
        groups_from(s, i, e, n, acc, f) == Some(fold_from(acc, vals, f.radix())),
    decreases vals.len(),
{
    let b = f.base() as nat;
    let d = digits(vals[0], b);
    let m = i + d.len();
    if vals.len() == 1 {
        assert(s.subrange(i, e) == d);
        assert(e == m);
        assert(s.subrange(i, m) == d);
    } else {
        lemma_text_split(s, i, e, d + seq![f.sep()], groups_text(vals.drop_first(), f.sep(), b));
        lemma_text_split(s, i, m + 1, d, seq![f.sep()]);
        assert((d + seq![f.sep()])[d.len() as int] == f.sep());
        assert(s[m] == f.sep());
    }
    lemma_digits_value(vals[0], b, s, i);
    lemma_run_end_exact(s, i, m, e, f.class());
    if f == AddrFormat::V4 {
        lemma_digits_len_dec(vals[0]);
    } else {
        lemma_digits_len_hex(vals[0]);
    }
    assert(class_of_base(b) == f.class());
    let g = run_end(s, i, e, f.class());
    assert(g == m);
    assert(g != i && g - i <= f.max_digits());
    assert(num_value(s, i, g, f.base()) == vals[0]);
    assert(fold_from(acc, vals, f.radix()) == fold_from(
        acc * f.radix() + vals[0],
        vals.drop_first(),
        f.radix(),
    ));
    if vals.len() > 1 {
        let rest = vals.drop_first();
        assert forall|k: int| 0 <= k < rest.len() implies #[trigger] rest[k] < f.radix() by {
            assert(rest[k] == vals[k + 1]);
        }
        lemma_groups_parse(s, m + 1, e, n + 1, acc * f.radix() + vals[0], f, rest);
        assert(n != f.groups() - 1);
        assert(g < e && s[g] == f.sep());
    } else {
        assert(vals.drop_first() =~= Seq::<nat>::empty());
        assert(n == f.groups() - 1);
        assert(g == e);
    }
}

/// A colon-hex text is no dotted-quad: reading it as one fails in its first
/// group.
proof fn lemma_v6_text_not_v4(s: Seq<char>, i: int, e: int, vals: Seq<nat>)
    requires
        vals.len() == 8,
        forall|k: int| 0 <= k < vals.len() ==> #[trigger] vals[k] < 65536,
        0 <= i <= e <= s.len(),
        s.subrange(i, e) == groups_text(vals, ':', 16),
    ensures
        groups_from(s, i, e, 0, 0, AddrFormat::V4) is None,
{
    let d = digits(vals[0], 16);
    let m = i + d.len();
    lemma_text_split(s, i, e, d + seq![':'], groups_text(vals.drop_first(), ':', 16));
    lemma_text_split(s, i, m + 1, d, seq![':']);
    assert((d + seq![':'])[d.len() as int] == ':');
    lemma_digits_value(vals[0], 16, s, i);
    lemma_run_end_bounds(s, i, e, CharClass::Digit);
    let g = run_end(s, i, e, CharClass::Digit);
    assert(s[m] == ':');
    if g > m {
        assert(in_class(s[m], CharClass::Digit));
    }
    assert(g <= m);
    if g < m {
        assert(s[g] != '.');
    }
}

/// A rendered address reads back as that address.
pub proof fn lemma_parse_ip_render(ip: IpAddr, s: Seq<char>, i: int, e: int)
    requires
        0 <= i <= e <= s.len(),
        s.subrange(i, e) == render_ip(ip),
    ensures
        parse_ip(s, i, e) == Some(ip),
{
    reveal_with_fuel(pow_of, 9);
    match ip {
        IpAddr::V4(x) => {
            assert(pow_of(256, 4) == 0x1_0000_0000);
            lemma_group_vals(x as nat, 256, 4);
            lemma_groups_parse(s, i, e, 0, 0, AddrFormat::V4, group_vals(x as nat, 256, 4));
        },
        IpAddr::V6(x) => {
            assert(pow_of(65536, 8) == 0x1_0000_0000_0000_0000_0000_0000_0000_0000);
            lemma_group_vals(x as nat, 65536, 8);
            lemma_v6_text_not_v4(s, i, e, group_vals(x as nat, 65536, 8));
            lemma_groups_parse(s, i, e, 0, 0, AddrFormat::V6, group_vals(x as nat, 65536, 8));
        },
    }
}

/// How a word of the language is spelled.
pub open spec fn kw_text(kw: Kw) -> Seq<char> {
    match kw {
        Kw::Not => seq!['n', 'o', 't'],
        Kw::And => seq!['a', 'n', 'd'],
        Kw::Or => seq!['o', 'r'],
        Kw::Tcp => seq!['t', 'c', 'p'],
        Kw::Udp => seq!['u', 'd', 'p'],
        Kw::Ipv4 => seq!['i', 'p', 'v', '4'],
        Kw::Ipv6 => seq!['i', 'p', 'v', '6'],
        Kw::Pid => seq!['p', 'i', 'd'],
        Kw::Port => seq!['p', 'o', 'r', 't'],
        Kw::Lport => seq!['l', 'p', 'o', 'r', 't'],
        Kw::Rport => seq!['r', 'p', 'o', 'r', 't'],
        Kw::Addr => seq!['a', 'd', 'd', 'r'],
        Kw::Laddr => seq!['l', 'a', 'd', 'd', 'r'],
        Kw::Raddr => seq!['r', 'a', 'd', 'd', 'r'],
    }
}

pub open spec fn bracket(kw: Kw, inner: Seq<char>) -> Seq<char> {
    kw_text(kw) + seq!['['] + inner + seq![']']
}

/// An expression written out in the filter language, every `and` and `or`
/// in parentheses.
pub open spec fn render(e: Expr) -> Seq<char>
    decreases e,
{
    match e {
        Expr::Pid(p) => bracket(Kw::Pid, digits(p as nat, 10)),
        Expr::Protocol(Protocol::Tcp) => kw_text(Kw::Tcp),
        Expr::Protocol(Protocol::Udp) => kw_text(Kw::Udp),
        Expr::IpVersion(IpVersion::IpV4) => kw_text(Kw::Ipv4),
        Expr::IpVersion(IpVersion::IpV6) => kw_text(Kw::Ipv6),
        Expr::Addr(a) => bracket(Kw::Addr, render_ip(a)),
        Expr::LocalAddr(a) => bracket(Kw::Laddr, render_ip(a)),
        Expr::RemoteAddr(a) => bracket(Kw::Raddr, render_ip(a)),
        Expr::Port(p) => bracket(Kw::Port, digits(p as nat, 10)),
        Expr::LocalPort(p) => bracket(Kw::Lport, digits(p as nat, 10)),
        Expr::RemotePort(p) => bracket(Kw::Rport, digits(p as nat, 10)),
        Expr::And(a, b) => seq!['('] + render(*a) + seq![' '] + kw_text(Kw::And) + seq![' '] + render(
            *b,
        ) + seq![')'],
        Expr::Or(a, b) => seq!['('] + render(*a) + seq![' '] + kw_text(Kw::Or) + seq![' '] + render(
            *b,
        ) + seq![')'],
        Expr::Not(a) => kw_text(Kw::Not) + seq![' '] + render(*a),
    }
}

proof fn lemma_kw_text(kw: Kw)
    ensures
        keyword(kw_text(kw)) == Some(kw),
        2 <= kw_text(kw).len() <= 5,
        forall|j: int| 0 <= j < kw_text(kw).len() ==> in_class(#[trigger] kw_text(kw)[j], CharClass::Word),
        kw_text(kw)[0] != '(' && kw_text(kw)[0] != ' ' && kw_text(kw)[0] != '\t',
{
    let t = kw_text(kw);
    match kw {
        Kw::Not => {},
        Kw::And => {
            assert(t != seq!['n', 'o', 't']) by { assert(t[0] != seq!['n', 'o', 't'][0]); }
        },
        Kw::Or => {},
        Kw::Tcp => {
            assert(t != seq!['n', 'o', 't']) by { assert(t[0] != seq!['n', 'o', 't'][0]); }
            assert(t != seq!['a', 'n', 'd']) by { assert(t[0] != seq!['a', 'n', 'd'][0]); }
        },
        Kw::Udp => {
            assert(t != seq!['n', 'o', 't']) by { assert(t[0] != seq!['n', 'o', 't'][0]); }
            assert(t != seq!['a', 'n', 'd']) by { assert(t[0] != seq!['a', 'n', 'd'][0]); }
            assert(t != seq!['t', 'c', 'p']) by { assert(t[0] != seq!['t', 'c', 'p'][0]); }
        },
        Kw::Ipv4 => {},
        Kw::Ipv6 => {
            assert(t != seq!['i', 'p', 'v', '4']) by { assert(t[3] != seq!['i', 'p', 'v', '4'][3]); }
        },
        Kw::Pid => {
            assert(t != seq!['n', 'o', 't']) by { assert(t[0] != seq!['n', 'o', 't'][0]); }
            assert(t != seq!['a', 'n', 'd']) by { assert(t[0] != seq!['a', 'n', 'd'][0]); }
            assert(t != seq!['t', 'c', 'p']) by { assert(t[0] != seq!['t', 'c', 'p'][0]); }
            assert(t != seq!['u', 'd', 'p']) by { assert(t[0] != seq!['u', 'd', 'p'][0]); }
        },
        Kw::Port => {
            assert(t != seq!['i', 'p', 'v', '4']) by { assert(t[0] != seq!['i', 'p', 'v', '4'][0]); }
            assert(t != seq!['i', 'p', 'v', '6']) by { assert(t[0] != seq!['i', 'p', 'v', '6'][0]); }
        },
        Kw::Lport => {},
        Kw::Rport => {
            assert(t != seq!['l', 'p', 'o', 'r', 't']) by { assert(t[0] != seq!['l', 'p', 'o', 'r', 't'][0]); }
        },
        Kw::Addr => {
            assert(t != seq!['i', 'p', 'v', '4']) by { assert(t[0] != seq!['i', 'p', 'v', '4'][0]); }
            assert(t != seq!['i', 'p', 'v', '6']) by { assert(t[0] != seq!['i', 'p', 'v', '6'][0]); }
            assert(t != seq!['p', 'o', 'r', 't']) by { assert(t[0] != seq!['p', 'o', 'r', 't'][0]); }
        },
        Kw::Laddr => {
            assert(t != seq!['l', 'p', 'o', 'r', 't']) by { assert(t[1] != seq!['l', 'p', 'o', 'r', 't'][1]); }
            assert(t != seq!['r', 'p', 'o', 'r', 't']) by { assert(t[0] != seq!['r', 'p', 'o', 'r', 't'][0]); }
        },
        Kw::Raddr => {
            assert(t != seq!['l', 'p', 'o', 'r', 't']) by { assert(t[0] != seq!['l', 'p', 'o', 'r', 't'][0]); }
            assert(t != seq!['r', 'p', 'o', 'r', 't']) by { assert(t[1] != seq!['r', 'p', 'o', 'r', 't'][1]); }
            assert(t != seq!['l', 'a', 'd', 'd', 'r']) by { assert(t[0] != seq!['l', 'a', 'd', 'd', 'r'][0]); }
        },
    }
}

proof fn lemma_sub(s: Seq<char>, p: int, r: Seq<char>)
    requires
        0 <= p,
        p + r.len() <= s.len(),
        s.subrange(p, p + r.len()) == r,
    ensures
        forall|j: int| 0 <= j < r.len() ==> s[p + j] == #[trigger] r[j],
{
    assert forall|j: int| 0 <= j < r.len() implies s[p + j] == #[trigger] r[j] by {
        assert(s.subrange(p, p + r.len())[j] == s[p + j]);
    }
}

proof fn lemma_piece(s: Seq<char>, p: int, r: Seq<char>, off: int, x: Seq<char>)
    requires
        0 <= p,
        p + r.len() <= s.len(),
        forall|j: int| 0 <= j < r.len() ==> s[p + j] == #[trigger] r[j],
        0 <= off,
        off + x.len() <= r.len(),
        forall|j: int| 0 <= j < x.len() ==> r[off + j] == #[trigger] x[j],
    ensures
        s.subrange(p + off, p + off + x.len()) == x,
{
    assert forall|j: int| 0 <= j < x.len() implies s.subrange(p + off, p + off + x.len())[j]
        == x[j] by {
        assert(r[off + j] == x[j]);
        assert(s[p + (off + j)] == r[off + j]);
    }
    assert(s.subrange(p + off, p + off + x.len()) =~= x);
}

proof fn lemma_word_at(s: Seq<char>, p: int, kw: Kw)
    requires
        0 <= p,
        p + kw_text(kw).len() <= s.len(),
        forall|j: int| 0 <= j < kw_text(kw).len() ==> s[p + j] == #[trigger] kw_text(kw)[j],
        p + kw_text(kw).len() == s.len() || !in_class(s[p + kw_text(kw).len()], CharClass::Word),
    ensures
        run_end(s, p, s.len() as int, CharClass::Word) == p + kw_text(kw).len(),
        keyword(s.subrange(p, p + kw_text(kw).len())) == Some(kw),
        s[p] != ' ' && s[p] != '\t' && s[p] != '(',
{
    lemma_kw_text(kw);
    let t = kw_text(kw);
    assert forall|j: int| p <= j < p + t.len() implies in_class(#[trigger] s[j], CharClass::Word) by {
        assert(s[p + (j - p)] == t[j - p]);
    }
    lemma_run_end_exact(s, p, p + t.len(), s.len() as int, CharClass::Word);
    assert(s.subrange(p, p + t.len()) =~= t);
    assert(s[p + 0] == t[0]);
}

proof fn lemma_no_operator(s: Seq<char>, k: int, op: Kw)
    requires
        0 <= k <= s.len(),
        k == s.len() || s[k] == ')',
    ensures
        operator_after(s, k, op) is None,
        skip_ws(s, k) == k,
{
    lemma_run_end_exact(s, k, k, s.len() as int, CharClass::Blank);
    lemma_run_end_exact(s, k, k, s.len() as int, CharClass::Word);
}

proof fn lemma_render_head(e: Expr)
    ensures
        render(e).len() >= 1,
        render(e)[0] != ' ' && render(e)[0] != '\t',
        (e is And || e is Or) ==> render(e)[0] == '(',
        !(e is And || e is Or) ==> render(e)[0] != '(',
{
    match e {
        Expr::And(_, _) => {},
        Expr::Or(_, _) => {},
        Expr::Not(_) => lemma_kw_text(Kw::Not),
        Expr::Protocol(Protocol::Tcp) => lemma_kw_text(Kw::Tcp),
        Expr::Protocol(Protocol::Udp) => lemma_kw_text(Kw::Udp),
        Expr::IpVersion(IpVersion::IpV4) => lemma_kw_text(Kw::Ipv4),
        Expr::IpVersion(IpVersion::IpV6) => lemma_kw_text(Kw::Ipv6),
        Expr::Pid(_) => lemma_kw_text(Kw::Pid),
        Expr::Port(_) => lemma_kw_text(Kw::Port),
        Expr::LocalPort(_) => lemma_kw_text(Kw::Lport),
        Expr::RemotePort(_) => lemma_kw_text(Kw::Rport),
        Expr::Addr(_) => lemma_kw_text(Kw::Addr),
        Expr::LocalAddr(_) => lemma_kw_text(Kw::Laddr),
        Expr::RemoteAddr(_) => lemma_kw_text(Kw::Raddr),
    }
}

proof fn lemma_groups_text_chars(vals: Seq<nat>, sep: char, b: nat)
    requires
        b == 10 || b == 16,
        sep == '.' || sep == ':',
    ensures
        forall|j: int|
            0 <= j < groups_text(vals, sep, b).len() ==> in_class(
                #[trigger] groups_text(vals, sep, b)[j],
                CharClass::Addr,
            ),
    decreases vals.len(),
{
    if vals.len() > 0 {
        let d = digits(vals[0], b);
        assert(d.subrange(0, d.len() as int) =~= d);
        lemma_digits_value(vals[0], b, d, 0);
        if vals.len() > 1 {
            let rest = groups_text(vals.drop_first(), sep, b);
            lemma_groups_text_chars(vals.drop_first(), sep, b);
            let t = groups_text(vals, sep, b);
            assert(t == d + seq![sep] + rest);
            assert forall|j: int| 0 <= j < t.len() implies in_class(#[trigger] t[j], CharClass::Addr) by {
                if j < d.len() {
                    assert(t[j] == d[j]);
                } else if j == d.len() {
                    assert(t[j] == sep);
                } else {
                    assert(t[j] == rest[j - d.len() - 1]);
                }
            }
        }
    }
}

proof fn lemma_render_ip_chars(ip: IpAddr)
    ensures
        forall|j: int| 0 <= j < render_ip(ip).len() ==> in_class(#[trigger] render_ip(ip)[j], CharClass::Addr),
{
    match ip {
        IpAddr::V4(x) => lemma_groups_text_chars(group_vals(x as nat, 256, 4), '.', 10),
        IpAddr::V6(x) => lemma_groups_text_chars(group_vals(x as nat, 65536, 8), ':', 16),
    }
}

/// Blanks from `i` up to `p`.
pub open spec fn blanks(s: Seq<char>, i: int, p: int) -> bool {
    0 <= i <= p && forall|j: int| i <= j < p ==> #[trigger] s[j] == ' '
}

/// What may follow a rendered term: the end, a blank or a closing
/// parenthesis.
pub open spec fn term_follows(s: Seq<char>, q: int) -> bool {
    q == s.len() || s[q] == ' ' || s[q] == ')'
}

proof fn lemma_skip_to(s: Seq<char>, i: int, p: int)
    requires
        blanks(s, i, p),
        p < s.len(),
        s[p] != ' ' && s[p] != '\t',
    ensures
        skip_ws(s, i) == p,
{
    lemma_run_end_exact(s, i, p, s.len() as int, CharClass::Blank);
}

pub open spec fn is_bracket_kw(kw: Kw) -> bool {
    kw == Kw::Pid || kw == Kw::Port || kw == Kw::Lport || kw == Kw::Rport || kw == Kw::Addr
        || kw == Kw::Laddr || kw == Kw::Raddr
}

proof fn lemma_bracket_term(s: Seq<char>, i: int, p: int, kw: Kw, inner: Seq<char>)
    requires
        is_bracket_kw(kw),
        blanks(s, i, p),
        p + bracket(kw, inner).len() <= s.len(),
        s.subrange(p, p + bracket(kw, inner).len()) == bracket(kw, inner),
    ensures
        parse_term(s, i) == parse_bracket(s, kw, p + kw_text(kw).len() + 1),
        forall|j: int| 0 <= j < inner.len() ==> s[p + kw_text(kw).len() + 1 + j] == #[trigger] inner[j],
        s[p + kw_text(kw).len() + 1 + inner.len()] == ']',
{
    let r = bracket(kw, inner);
    let t = kw_text(kw);
    lemma_kw_text(kw);
    lemma_sub(s, p, r);
    assert forall|j: int| 0 <= j < t.len() implies s[p + j] == #[trigger] t[j] by {
        assert(r[j] == t[j]);
    }
    assert(r[t.len() as int] == '[');
    assert(s[p + t.len()] == '[');
    lemma_word_at(s, p, kw);
    lemma_skip_to(s, i, p);
    assert forall|j: int| 0 <= j < inner.len() implies s[p + t.len() + 1 + j] == #[trigger] inner[j] by {
        assert(r[t.len() + 1 + j] == inner[j]);
    }
    assert(r[(t.len() + 1 + inner.len()) as int] == ']');
}

proof fn lemma_number_term(s: Seq<char>, i: int, p: int, kw: Kw, v: nat)
    requires
        number_max(kw) is Some,
        v <= number_max(kw)->0,
        blanks(s, i, p),
        p + bracket(kw, digits(v, 10)).len() <= s.len(),
        s.subrange(p, p + bracket(kw, digits(v, 10)).len()) == bracket(kw, digits(v, 10)),
    ensures
        parse_term(s, i) == Ok::<(Expr, int), crate::parser::ParseError>(
            (number_atom(kw, v as int), p + bracket(kw, digits(v, 10)).len()),
        ),
{
    let dg = digits(v, 10);
    let c = p + kw_text(kw).len() + 1;
    lemma_bracket_term(s, i, p, kw, dg);
    assert(s.subrange(c, c + dg.len()) =~= dg) by {
        assert forall|j: int| 0 <= j < dg.len() implies s.subrange(c, c + dg.len())[j] == dg[j] by {
            assert(s[c + j] == dg[j]);
        }
    }
    lemma_digits_value(v, 10, s, c);
    lemma_run_end_exact(s, c, c + dg.len(), s.len() as int, CharClass::Digit);
}

proof fn lemma_addr_term(s: Seq<char>, i: int, p: int, kw: Kw, ip: IpAddr)
    requires
        kw == Kw::Addr || kw == Kw::Laddr || kw == Kw::Raddr,
        blanks(s, i, p),
        p + bracket(kw, render_ip(ip)).len() <= s.len(),
        s.subrange(p, p + bracket(kw, render_ip(ip)).len()) == bracket(kw, render_ip(ip)),
    ensures
        parse_term(s, i) == Ok::<(Expr, int), crate::parser::ParseError>(
            (addr_atom(kw, ip), p + bracket(kw, render_ip(ip)).len()),
        ),
{
    let t = render_ip(ip);
    let c = p + kw_text(kw).len() + 1;
    lemma_bracket_term(s, i, p, kw, t);
    assert(s.subrange(c, c + t.len()) =~= t) by {
        assert forall|j: int| 0 <= j < t.len() implies s.subrange(c, c + t.len())[j] == t[j] by {
            assert(s[c + j] == t[j]);
        }
    }
    lemma_render_ip_chars(ip);
    assert forall|j: int| c <= j < c + t.len() implies in_class(#[trigger] s[j], CharClass::Addr) by {
        assert(s[c + (j - c)] == t[j - c]);
    }
    lemma_run_end_exact(s, c, c + t.len(), s.len() as int, CharClass::Addr);
    lemma_parse_ip_render(ip, s, c, c + t.len());
}

proof fn lemma_plain_term(s: Seq<char>, i: int, p: int, kw: Kw)
    requires
        plain_atom(kw) is Some,
        blanks(s, i, p),
        p + kw_text(kw).len() <= s.len(),
        s.subrange(p, p + kw_text(kw).len()) == kw_text(kw),
        term_follows(s, p + kw_text(kw).len()),
    ensures
        parse_term(s, i) == Ok::<(Expr, int), crate::parser::ParseError>(
            (plain_atom(kw)->0, p + kw_text(kw).len()),
        ),
{
    lemma_sub(s, p, kw_text(kw));
    lemma_word_at(s, p, kw);
    lemma_skip_to(s, i, p);
}

/// A rendered term, after blanks from `i`, parses back to itself.
#[verifier::rlimit(100)]
#[verifier::spinoff_prover]
proof fn lemma_term_render(e: Expr, s: Seq<char>, i: int, p: int)
    requires
        blanks(s, i, p),
        p + render(e).len() <= s.len(),
        s.subrange(p, p + render(e).len()) == render(e),
        term_follows(s, p + render(e).len()),
    ensures
        parse_term(s, i) == Ok::<(Expr, int), crate::parser::ParseError>((e, p + render(e).len())),
    decreases e,
{
    let r = render(e);
    let q = p + r.len();
    lemma_render_head(e);
    lemma_sub(s, p, r);
    match e {
        Expr::Pid(x) => lemma_number_term(s, i, p, Kw::Pid, x as nat),
        Expr::Port(x) => lemma_number_term(s, i, p, Kw::Port, x as nat),
        Expr::LocalPort(x) => lemma_number_term(s, i, p, Kw::Lport, x as nat),
        Expr::RemotePort(x) => lemma_number_term(s, i, p, Kw::Rport, x as nat),
        Expr::Addr(a) => lemma_addr_term(s, i, p, Kw::Addr, a),
        Expr::LocalAddr(a) => lemma_addr_term(s, i, p, Kw::Laddr, a),
        Expr::RemoteAddr(a) => lemma_addr_term(s, i, p, Kw::Raddr, a),
        Expr::Protocol(Protocol::Tcp) => lemma_plain_term(s, i, p, Kw::Tcp),
        Expr::Protocol(Protocol::Udp) => lemma_plain_term(s, i, p, Kw::Udp),
        Expr::IpVersion(IpVersion::IpV4) => lemma_plain_term(s, i, p, Kw::Ipv4),
        Expr::IpVersion(IpVersion::IpV6) => lemma_plain_term(s, i, p, Kw::Ipv6),
        Expr::Not(x) => {
            lemma_not_layout(s, p, *x);
            lemma_term_render(*x, s, p + 3, p + 4);
            lemma_kw_text(Kw::Not);
            lemma_word_at(s, p, Kw::Not);
            lemma_skip_to(s, i, p);
        },
        Expr::And(a, b) => {
            let k1 = p + 1 + render(*a).len();
            let k2 = k1 + 5 + render(*b).len();
            lemma_binary_layout(s, p, *a, *b, Kw::And);
            lemma_term_render(*a, s, p + 1, p + 1);
            lemma_term_render(*b, s, k1 + 4, k1 + 5);
            lemma_and_chain(s, i, p, *a, *b, k1, k2);
        },
        Expr::Or(a, b) => {
            let k1 = p + 1 + render(*a).len();
            let k2 = k1 + 4 + render(*b).len();
            lemma_binary_layout(s, p, *a, *b, Kw::Or);
            lemma_term_render(*a, s, p + 1, p + 1);
            lemma_term_render(*b, s, k1 + 3, k1 + 4);
            lemma_or_chain(s, i, p, *a, *b, k1, k2);
        },
    }
}

pub open spec fn binary_text(a: Expr, b: Expr, op: Kw) -> Seq<char> {
    seq!['('] + render(a) + seq![' '] + kw_text(op) + seq![' '] + render(b) + seq![')']
}

proof fn lemma_binary_layout(s: Seq<char>, p: int, a: Expr, b: Expr, op: Kw)
    requires
        op == Kw::And || op == Kw::Or,
        0 <= p,
        p + binary_text(a, b, op).len() <= s.len(),
        s.subrange(p, p + binary_text(a, b, op).len()) == binary_text(a, b, op),
    ensures
        ({
            let ra = render(a);
            let rb = render(b);
            let t = kw_text(op);
            let k1 = p + 1 + ra.len();
            let p2 = k1 + 2 + t.len();
            let k2 = p2 + rb.len();
            &&& s.subrange(p + 1, k1) == ra
            &&& s.subrange(p2, k2) == rb
            &&& s[p] == '('
            &&& s[k1] == ' '
            &&& s[k1 + 1 + t.len()] == ' '
            &&& s[k2] == ')'
            &&& k2 + 1 == p + binary_text(a, b, op).len()
            &&& forall|j: int| 0 <= j < t.len() ==> s[k1 + 1 + j] == #[trigger] t[j]
        }),
{
    let r = binary_text(a, b, op);
    let ra = render(a);
    let rb = render(b);
    let t = kw_text(op);
    lemma_sub(s, p, r);
    lemma_piece(s, p, r, 1, ra);
    lemma_piece(s, p, r, (2 + ra.len() + t.len() + 1) as int, rb);
    assert(r[0] == '(');
    assert(r[(1 + ra.len()) as int] == ' ');
    assert(r[(2 + ra.len() + t.len()) as int] == ' ');
    assert(r[r.len() - 1] == ')');
    assert forall|j: int| 0 <= j < t.len() implies s[p + 1 + ra.len() + 1 + j] == #[trigger] t[j] by {
        assert(r[2 + ra.len() + j] == t[j]);
    }
}

proof fn lemma_not_layout(s: Seq<char>, p: int, x: Expr)
    requires
        0 <= p,
        p + render(Expr::Not(Box::new(x))).len() <= s.len(),
        s.subrange(p, p + render(Expr::Not(Box::new(x))).len()) == render(Expr::Not(Box::new(x))),
        term_follows(s, p + render(Expr::Not(Box::new(x))).len()),
    ensures
        forall|j: int| 0 <= j < 3 ==> s[p + j] == #[trigger] kw_text(Kw::Not)[j],
        s[p + 3] == ' ',
        blanks(s, p + 3, p + 4),
        s.subrange(p + 4, p + 4 + render(x).len()) == render(x),
        p + 4 + render(x).len() == p + render(Expr::Not(Box::new(x))).len(),
        term_follows(s, p + 4 + render(x).len()),
{
    let r = render(Expr::Not(Box::new(x)));
    let t = kw_text(Kw::Not);
    lemma_sub(s, p, r);
    assert forall|j: int| 0 <= j < 3 implies s[p + j] == #[trigger] kw_text(Kw::Not)[j] by {
        assert(r[j] == t[j]);
    }
    assert(r[3] == ' ');
    lemma_piece(s, p, r, 4, render(x));
}

#[verifier::rlimit(100)]
#[verifier::spinoff_prover]
proof fn lemma_and_chain(s: Seq<char>, i: int, p: int, a: Expr, b: Expr, k1: int, k2: int)
    requires
        blanks(s, i, p),
        p < k1 && k1 + 4 < k2 < s.len(),
        s[p] == '(',
        s[k1] == ' ',
        s[k1 + 4] == ' ',
        s[k2] == ')',
        forall|j: int| 0 <= j < kw_text(Kw::And).len() ==> s[k1 + 1 + j] == #[trigger] kw_text(Kw::And)[j],
        parse_term(s, p + 1) == Ok::<(Expr, int), crate::parser::ParseError>((a, k1)),
        parse_term(s, k1 + 4) == Ok::<(Expr, int), crate::parser::ParseError>((b, k2)),
    ensures
        parse_term(s, i) == Ok::<(Expr, int), crate::parser::ParseError>(
            (Expr::And(Box::new(a), Box::new(b)), k2 + 1),
        ),
{
    let e = Expr::And(Box::new(a), Box::new(b));
    lemma_kw_text(Kw::And);
    lemma_skip_to(s, i, p);
    lemma_run_end_exact(s, k1, k1 + 1, s.len() as int, CharClass::Blank);
    lemma_word_at(s, k1 + 1, Kw::And);
    lemma_no_operator(s, k2, Kw::And);
    lemma_no_operator(s, k2, Kw::Or);
    assert(operator_after(s, k1, Kw::And) == Some(k1 + 4));
    assert(and_tail(s, k1, a) == and_tail(s, k2, e));
    assert(parse_and(s, p + 1) == Ok::<(Expr, int), crate::parser::ParseError>((e, k2)));
    assert(parse_or(s, p + 1) == Ok::<(Expr, int), crate::parser::ParseError>((e, k2)));
}

#[verifier::rlimit(100)]
#[verifier::spinoff_prover]
proof fn lemma_or_chain(s: Seq<char>, i: int, p: int, a: Expr, b: Expr, k1: int, k2: int)
    requires
        blanks(s, i, p),
        p < k1 && k1 + 3 < k2 < s.len(),
        s[p] == '(',
        s[k1] == ' ',
        s[k1 + 3] == ' ',
        s[k2] == ')',
        forall|j: int| 0 <= j < kw_text(Kw::Or).len() ==> s[k1 + 1 + j] == #[trigger] kw_text(Kw::Or)[j],
        parse_term(s, p + 1) == Ok::<(Expr, int), crate::parser::ParseError>((a, k1)),
        parse_term(s, k1 + 3) == Ok::<(Expr, int), crate::parser::ParseError>((b, k2)),
    ensures
        parse_term(s, i) == Ok::<(Expr, int), crate::parser::ParseError>(
            (Expr::Or(Box::new(a), Box::new(b)), k2 + 1),
        ),
{
    let e = Expr::Or(Box::new(a), Box::new(b));
    lemma_kw_text(Kw::Or);
    lemma_kw_text(Kw::And);
    lemma_skip_to(s, i, p);
    lemma_run_end_exact(s, k1, k1 + 1, s.len() as int, CharClass::Blank);
    lemma_word_at(s, k1 + 1, Kw::Or);
    lemma_no_operator(s, k2, Kw::And);
    lemma_no_operator(s, k2, Kw::Or);
    assert(operator_after(s, k1, Kw::And) is None);
    assert(operator_after(s, k1, Kw::Or) == Some(k1 + 3));
    assert(parse_and(s, p + 1) == Ok::<(Expr, int), crate::parser::ParseError>((a, k1)));
    assert(parse_and(s, k1 + 3) == Ok::<(Expr, int), crate::parser::ParseError>((b, k2)));
    assert(or_tail(s, k1, a) == or_tail(s, k2, e));
    assert(parse_or(s, p + 1) == Ok::<(Expr, int), crate::parser::ParseError>((e, k2)));
}

/// Every expression, written out by [render], parses back to itself.
pub proof fn lemma_parse_render(e: Expr)
    ensures
        parse_filter(render(e)) == Ok::<Expr, crate::parser::ParseError>(e),
{
    let s = render(e);
    lemma_render_head(e);
    assert(s.subrange(0, s.len() as int) =~= s);
    lemma_term_render(e, s, 0, 0);
    lemma_no_operator(s, s.len() as int, Kw::And);
    lemma_no_operator(s, s.len() as int, Kw::Or);
}

/// Two texts joined by an operator word with a blank on each side.
pub open spec fn infix(l: Seq<char>, op: Kw, r: Seq<char>) -> Seq<char> {
    l + seq![' '] + kw_text(op) + seq![' '] + r
}

proof fn lemma_infix_layout(s: Seq<char>, p: int, l: Seq<char>, op: Kw, r: Seq<char>)
    requires
        0 <= p,
        p + infix(l, op, r).len() <= s.len(),
        s.subrange(p, p + infix(l, op, r).len()) == infix(l, op, r),
    ensures
        ({
            let t = kw_text(op);
            let m = p + l.len();
            let q = m + 2 + t.len();
            &&& s.subrange(p, m) == l
            &&& s[m] == ' '
            &&& forall|j: int| 0 <= j < t.len() ==> s[m + 1 + j] == #[trigger] t[j]
            &&& s[m + 1 + t.len()] == ' '
            &&& s.subrange(q, q + r.len()) == r
            &&& q + r.len() == p + infix(l, op, r).len()
        }),
{
    let x = infix(l, op, r);
    let t = kw_text(op);
    lemma_sub(s, p, x);
    lemma_piece(s, p, x, 0, l);
    lemma_piece(s, p, x, (l.len() + 2 + t.len()) as int, r);
    assert(x[l.len() as int] == ' ');
    assert(x[(l.len() + 1 + t.len()) as int] == ' ');
    assert forall|j: int| 0 <= j < t.len() implies s[p + l.len() + 1 + j] == #[trigger] t[j] by {
        assert(x[l.len() + 1 + j] == t[j]);
    }
}

#[verifier::rlimit(100)]
#[verifier::spinoff_prover]
proof fn lemma_and_top(s: Seq<char>, x: Expr, y: Expr, k1: int)
    requires
        0 < k1 && k1 + 4 < s.len(),
        s[k1] == ' ',
        s[k1 + 4] == ' ',
        forall|j: int| 0 <= j < kw_text(Kw::And).len() ==> s[k1 + 1 + j] == #[trigger] kw_text(Kw::And)[j],
        parse_term(s, 0) == Ok::<(Expr, int), crate::parser::ParseError>((x, k1)),
        parse_term(s, k1 + 4) == Ok::<(Expr, int), crate::parser::ParseError>((y, s.len() as int)),
    ensures
        parse_filter(s) == Ok::<Expr, crate::parser::ParseError>(Expr::And(Box::new(x), Box::new(y))),
{
    let n = s.len() as int;
    lemma_kw_text(Kw::And);
    lemma_run_end_exact(s, k1, k1 + 1, n, CharClass::Blank);
    lemma_word_at(s, k1 + 1, Kw::And);
    lemma_no_operator(s, n, Kw::And);
    lemma_no_operator(s, n, Kw::Or);
    let e = Expr::And(Box::new(x), Box::new(y));
    assert(operator_after(s, k1, Kw::And) == Some(k1 + 4));
    assert(and_tail(s, k1, x) == and_tail(s, n, e));
    assert(parse_and(s, 0) == Ok::<(Expr, int), crate::parser::ParseError>((e, n)));
    assert(parse_or(s, 0) == Ok::<(Expr, int), crate::parser::ParseError>((e, n)));
}

/// `x and y`, written with one blank around the operator, reads as the
/// conjunction of `x` and `y`.
#[verifier::rlimit(100)]
pub proof fn lemma_parse_and(x: Expr, y: Expr)
    ensures
        parse_filter(infix(render(x), Kw::And, render(y))) == Ok::<Expr, crate::parser::ParseError>(
            Expr::And(Box::new(x), Box::new(y)),
        ),
{
    let s = infix(render(x), Kw::And, render(y));
    let k1 = render(x).len() as int;
    assert(s.subrange(0, s.len() as int) =~= s);
    lemma_infix_layout(s, 0, render(x), Kw::And, render(y));
    lemma_kw_text(Kw::And);
    lemma_render_head(x);
    lemma_term_render(x, s, 0, 0);
    lemma_term_render(y, s, k1 + 4, k1 + 5);
    lemma_and_top(s, x, y, k1);
}

/// After blanks from `i`, `y and z` running to the end reads as their
/// conjunction.
#[verifier::rlimit(100)]
proof fn lemma_and_at(s: Seq<char>, i: int, p: int, y: Expr, z: Expr)
    requires
        blanks(s, i, p),
        p + infix(render(y), Kw::And, render(z)).len() == s.len(),
        s.subrange(p, s.len() as int) == infix(render(y), Kw::And, render(z)),
    ensures
        parse_and(s, i) == Ok::<(Expr, int), crate::parser::ParseError>(
            (Expr::And(Box::new(y), Box::new(z)), s.len() as int),
        ),
{
    let n = s.len() as int;
    let k2 = p + render(y).len();
    lemma_infix_layout(s, p, render(y), Kw::And, render(z));
    lemma_kw_text(Kw::And);
    lemma_render_head(y);
    lemma_term_render(y, s, i, p);
    lemma_term_render(z, s, k2 + 4, k2 + 5);
    lemma_run_end_exact(s, k2, k2 + 1, n, CharClass::Blank);
    lemma_word_at(s, k2 + 1, Kw::And);
    lemma_no_operator(s, n, Kw::And);
    let yz = Expr::And(Box::new(y), Box::new(z));
    assert(operator_after(s, k2, Kw::And) == Some(k2 + 4));
    assert(and_tail(s, k2, y) == and_tail(s, n, yz));
}

/// `x or y and z` reads as `x or (y and z)`: `and` binds tighter than `or`.
#[verifier::rlimit(100)]
#[verifier::spinoff_prover]
pub proof fn lemma_parse_or_and(x: Expr, y: Expr, z: Expr)
    ensures
        parse_filter(infix(render(x), Kw::Or, infix(render(y), Kw::And, render(z))))
            == Ok::<Expr, crate::parser::ParseError>(
            Expr::Or(Box::new(x), Box::new(Expr::And(Box::new(y), Box::new(z)))),
        ),
{
    let inner = infix(render(y), Kw::And, render(z));
    let s = infix(render(x), Kw::Or, inner);
    let n = s.len() as int;
    let k1 = render(x).len() as int;
    assert(s.subrange(0, n) =~= s);
    lemma_infix_layout(s, 0, render(x), Kw::Or, inner);
    lemma_kw_text(Kw::And);
    lemma_kw_text(Kw::Or);
    lemma_render_head(x);
    lemma_term_render(x, s, 0, 0);
    lemma_and_at(s, k1 + 3, k1 + 4, y, z);
    lemma_or_top(s, x, Expr::And(Box::new(y), Box::new(z)), k1);
}

#[verifier::rlimit(100)]
#[verifier::spinoff_prover]
proof fn lemma_or_top(s: Seq<char>, x: Expr, yz: Expr, k1: int)
    requires
        0 < k1 && k1 + 3 < s.len(),
        s[k1] == ' ',
        s[k1 + 3] == ' ',
        forall|j: int| 0 <= j < kw_text(Kw::Or).len() ==> s[k1 + 1 + j] == #[trigger] kw_text(Kw::Or)[j],
        parse_term(s, 0) == Ok::<(Expr, int), crate::parser::ParseError>((x, k1)),
        parse_and(s, k1 + 3) == Ok::<(Expr, int), crate::parser::ParseError>((yz, s.len() as int)),
    ensures
        parse_filter(s) == Ok::<Expr, crate::parser::ParseError>(Expr::Or(Box::new(x), Box::new(yz))),
{
    let n = s.len() as int;
    lemma_kw_text(Kw::And);
    lemma_kw_text(Kw::Or);
    lemma_run_end_exact(s, k1, k1 + 1, n, CharClass::Blank);
    lemma_word_at(s, k1 + 1, Kw::Or);
    lemma_no_operator(s, n, Kw::And);
    lemma_no_operator(s, n, Kw::Or);
    let e = Expr::Or(Box::new(x), Box::new(yz));
    assert(operator_after(s, k1, Kw::And) is None);
    assert(operator_after(s, k1, Kw::Or) == Some(k1 + 3));
    assert(parse_and(s, 0) == Ok::<(Expr, int), crate::parser::ParseError>((x, k1)));
    assert(or_tail(s, k1, x) == or_tail(s, n, e));
}

/// `not x and y` reads as `(not x) and y`: `not` binds tighter than `and`.
pub proof fn lemma_parse_not_and(x: Expr, y: Expr)
    ensures
        parse_filter(infix(render(Expr::Not(Box::new(x))), Kw::And, render(y))) == Ok::<
            Expr,
            crate::parser::ParseError,
        >(Expr::And(Box::new(Expr::Not(Box::new(x))), Box::new(y))),
{
    lemma_parse_and(Expr::Not(Box::new(x)), y);
}

} // verus!
