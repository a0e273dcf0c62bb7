use vstd::prelude::*;
use vstd::string::StrSliceExecFns;

use crate::filter::{Expr, Interpretor, IpVersion, Protocol};
use crate::types::IpAddr;

verus! {

/// What went wrong in a filter expression.
#[derive(Clone, Copy, Debug, PartialEq, Eq, Structural)]
pub enum ParseErrorKind {
    /// A token that the grammar does not allow here.
    UnexpectedToken,
    /// The input ended where a token was expected.
    UnexpectedEnd,
    /// A pid or port that does not fit its type.
    InvalidNumber,
    /// An address that is neither dotted-quad nor colon-hex.
    InvalidAddress,
}

/// A parse failure, at a 1-based line and column.
#[derive(Clone, Copy, Debug, PartialEq, Eq, Structural)]
pub struct ParseError {
    pub line: usize,
    pub column: usize,
    pub kind: ParseErrorKind,
}

impl ParseError {
    pub fn message(&self) -> (r: &'static str)
        ensures
            self.kind == ParseErrorKind::UnexpectedToken ==> r@ == "unexpected token"@,
            self.kind == ParseErrorKind::UnexpectedEnd ==> r@ == "unexpected end of input"@,
            self.kind == ParseErrorKind::InvalidNumber ==> r@ == "invalid number"@,
            self.kind == ParseErrorKind::InvalidAddress ==> r@ == "invalid ip address"@,
    {
        match self.kind {
            ParseErrorKind::UnexpectedToken => "unexpected token",
            ParseErrorKind::UnexpectedEnd => "unexpected end of input",
            ParseErrorKind::InvalidNumber => "invalid number",
            ParseErrorKind::InvalidAddress => "invalid ip address",
        }
    }
}

/// An error at 0-based position `i` of the single input line.
pub open spec fn err_at(i: int, kind: ParseErrorKind) -> ParseError {
    ParseError { line: 1, column: (i + 1) as usize, kind }
}

/// A class of characters that a scan runs over.
#[derive(Clone, Copy, Debug, PartialEq, Eq, Structural)]
pub enum CharClass {
    Blank,
    Digit,
    Hex,
    Word,
    Addr,
    Dotted,
}

pub open spec fn is_digit(c: char) -> bool {
    '0' <= c && c <= '9'
}

pub open spec fn is_hex(c: char) -> bool {
    is_digit(c) || ('a' <= c && c <= 'f') || ('A' <= c && c <= 'F')
}

pub open spec fn in_class(c: char, class: CharClass) -> bool {
    match class {
        CharClass::Blank => c == ' ' || c == '\t',
        CharClass::Digit => is_digit(c),
        CharClass::Hex => is_hex(c),
        CharClass::Word => is_digit(c) || ('a' <= c && c <= 'z') || ('A' <= c && c <= 'Z'),
        CharClass::Addr => is_hex(c) || c == ':' || c == '.',
        CharClass::Dotted => is_hex(c) || c == '.',
    }
}

/// The end of the run of characters of `class` that starts at `i`, not
/// beyond `e`.
pub open spec fn run_end(s: Seq<char>, i: int, e: int, class: CharClass) -> int
    decreases e - i,
{
    if 0 <= i < e && i < s.len() && in_class(s[i], class) {
        run_end(s, i + 1, e, class)
    } else {
        i
    }
}

pub open spec fn skip_ws(s: Seq<char>, i: int) -> int {
    run_end(s, i, s.len() as int, CharClass::Blank)
}

pub open spec fn digit_value(c: char) -> int {
    if is_digit(c) {
        c as int - '0' as int
    } else if 'a' <= c && c <= 'f' {
        c as int - 'a' as int + 10
    } else {
        c as int - 'A' as int + 10
    }
}

/// The value of the digits of `s` from `i` to `e`, in base `b`.
pub open spec fn num_value(s: Seq<char>, i: int, e: int, b: int) -> int
    decreases e - i,
{
    if e <= i {
        0
    } else {
        num_value(s, i, e - 1, b) * b + digit_value(s[e - 1])
    }
}

fn run_end_exec(s: &Vec<char>, i: usize, e: usize, class: CharClass) -> (r: usize)
    requires
        i <= e <= s@.len(),
    ensures
        r == run_end(s@, i as int, e as int, class),
        i <= r <= e,
        forall|j: int| i <= j < r ==> in_class(#[trigger] s@[j], class),
{
    let mut j = i;
    while j < e && char_in_class(s[j], class)
        invariant
            i <= j <= e,
            e <= s@.len(),
            run_end(s@, j as int, e as int, class) == run_end(s@, i as int, e as int, class),
            forall|k: int| i <= k < j ==> in_class(#[trigger] s@[k], class),
        decreases e - j,
    {
        j = j + 1;
    }
    j
}

fn char_in_class(c: char, class: CharClass) -> (r: bool)
    ensures
        r == in_class(c, class),
{
    match class {
        CharClass::Blank => c == ' ' || c == '\t',
        CharClass::Digit => '0' <= c && c <= '9',
        CharClass::Hex => ('0' <= c && c <= '9') || ('a' <= c && c <= 'f') || ('A' <= c && c <= 'F'),
        CharClass::Word => ('0' <= c && c <= '9') || ('a' <= c && c <= 'z') || ('A' <= c && c
            <= 'Z'),
        CharClass::Addr => ('0' <= c && c <= '9') || ('a' <= c && c <= 'f') || ('A' <= c && c
            <= 'F') || c == ':' || c == '.',
        CharClass::Dotted => ('0' <= c && c <= '9') || ('a' <= c && c <= 'f') || ('A' <= c && c
            <= 'F') || c == '.',
    }
}

proof fn lemma_num_value_nonneg(s: Seq<char>, i: int, e: int, b: int)
    requires
        b >= 1,
        forall|j: int| i <= j < e ==> is_hex(#[trigger] s[j]),
    ensures
        num_value(s, i, e, b) >= 0,
    decreases e - i,
{
    if e > i {
        lemma_num_value_nonneg(s, i, e - 1, b);
        let v = num_value(s, i, e - 1, b);
        assert(v * b >= 0) by (nonlinear_arith)
            requires
                v >= 0,
                b >= 1,
        ;
        assert(is_hex(s[e - 1]));
    }
}

/// The value of the digits from `i` to `e` in base `b`, none where it
/// exceeds `max`.
fn number(s: &Vec<char>, i: usize, e: usize, b: u64, max: u64) -> (r: Option<u64>)
    requires
        i <= e <= s@.len(),
        b == 10 || b == 16,
        max <= 0xffff_ffff,
        forall|j: int| i <= j < e ==> (if b == 10 {
            is_digit(#[trigger] s@[j])
        } else {
            is_hex(s@[j])
        }),
    ensures
        num_value(s@, i as int, e as int, b as int) >= 0,
        r == (if num_value(s@, i as int, e as int, b as int) <= max {
            Some(num_value(s@, i as int, e as int, b as int) as u64)
        } else {
            None::<u64>
        }),
{
    let mut acc: u64 = 0;
    let mut over = false;
    let mut j = i;
    while j < e
        invariant
            i <= j <= e,
            e <= s@.len(),
            b == 10 || b == 16,
            max <= 0xffff_ffff,
            forall|k: int| i <= k < e ==> (if b == 10 {
                is_digit(#[trigger] s@[k])
            } else {
                is_hex(s@[k])
            }),
            !over ==> acc == num_value(s@, i as int, j as int, b as int) && acc <= max,
            over ==> num_value(s@, i as int, j as int, b as int) > max,
        decreases e - j,
    {
        let c = s[j];
        assert(is_hex(c));
        let d: u64 = if '0' <= c && c <= '9' {
            (c as u32 - '0' as u32) as u64
        } else if 'a' <= c && c <= 'f' {
            (c as u32 - 'a' as u32 + 10) as u64
        } else {
            (c as u32 - 'A' as u32 + 10) as u64
        };
        assert(d == digit_value(c));
        assert(d < b);
        proof {
            assert forall|k: int| i <= k < j implies is_hex(#[trigger] s@[k]) by {}
            lemma_num_value_nonneg(s@, i as int, j as int, b as int);
        }
        let ghost prev = num_value(s@, i as int, j as int, b as int);
        assert(num_value(s@, i as int, j + 1, b as int) == prev * b + d);
        if !over {
            assert(acc * b + d <= 0xffff_ffff * 16 + 15) by (nonlinear_arith)
                requires
                    acc <= 0xffff_ffff,
                    b <= 16,
                    d < 16,
            ;
            acc = acc * b + d;
            if acc > max {
                over = true;
            }
        } else {
            assert(prev * b + d > max) by (nonlinear_arith)
                requires
                    prev > max,
                    b >= 1,
                    d >= 0,
                    max >= 0,
            ;
        }
        j = j + 1;
    }
    proof {
        assert forall|k: int| i <= k < e implies is_hex(#[trigger] s@[k]) by {}
        lemma_num_value_nonneg(s@, i as int, e as int, b as int);
    }
    if over {
        None
    } else {
        Some(acc)
    }
}

/// The shape of an address: dotted-quad or colon-hex.
#[derive(Clone, Copy, Debug, PartialEq, Eq, Structural)]
pub enum AddrFormat {
    V4,
    V6,
}

impl AddrFormat {
    pub open spec fn groups(self) -> int {
        match self {
            AddrFormat::V4 => 4,
            AddrFormat::V6 => 8,
        }
    }

    pub open spec fn sep(self) -> char {
        match self {
            AddrFormat::V4 => '.',
            AddrFormat::V6 => ':',
        }
    }

    pub open spec fn class(self) -> CharClass {
        match self {
            AddrFormat::V4 => CharClass::Digit,
            AddrFormat::V6 => CharClass::Hex,
        }
    }

    pub open spec fn max_digits(self) -> int {
        match self {
            AddrFormat::V4 => 3,
            AddrFormat::V6 => 4,
        }
    }

    pub open spec fn base(self) -> int {
        match self {
            AddrFormat::V4 => 10,
            AddrFormat::V6 => 16,
        }
    }

    /// The number of values of one group.
    pub open spec fn radix(self) -> int {
        match self {
            AddrFormat::V4 => 256,
            AddrFormat::V6 => 65536,
        }
    }
}

pub open spec fn pow_of(b: int, n: nat) -> int
    decreases n,
{
    if n == 0 {
        1
    } else {
        b * pow_of(b, (n - 1) as nat)
    }
}

/// The value of the address groups from `i` to exactly `e`, `n` groups
/// already read with value `acc`: each group 1 to `max_digits` digits with
/// a value below `radix`, the groups split by `sep`.
pub open spec fn groups_from(s: Seq<char>, i: int, e: int, n: int, acc: int, f: AddrFormat) -> Option<
    int,
>
    decreases f.groups() - n,
{
    if n < 0 || n >= f.groups() || i > e {
        None
    } else {
        let g = run_end(s, i, e, f.class());
        if g == i || g - i > f.max_digits() {
            None
        } else {
            let v = num_value(s, i, g, f.base());
            if v >= f.radix() {
                None
            } else {
                let acc2 = acc * f.radix() + v;
                if n == f.groups() - 1 {
                    if g == e {
                        Some(acc2)
                    } else {
                        None
                    }
                } else if g < e && s[g] == f.sep() {
                    groups_from(s, g + 1, e, n + 1, acc2, f)
                } else {
                    None
                }
            }
        }
    }
}

/// The address written from `i` to `e`: dotted-quad, else colon-hex with
/// all eight groups.
pub open spec fn parse_ip(s: Seq<char>, i: int, e: int) -> Option<IpAddr> {
    match groups_from(s, i, e, 0, 0, AddrFormat::V4) {
        Some(a) => Some(IpAddr::V4(a as u32)),
        None => match groups_from(s, i, e, 0, 0, AddrFormat::V6) {
            Some(a) => Some(IpAddr::V6(a as u128)),
            None => match parse_ip6_text(s, i, e) {
                Some(a) => Some(IpAddr::V6(a)),
                None => None,
            },
        },
    }
}

/// One colon-separated item of a colon-hex address, from `a` and not past
/// `b`: its end, its groups (one for one to four hex digits, two for a
/// dotted-quad), and whether it is a dotted-quad.
pub open spec fn item_at(s: Seq<char>, a: int, b: int) -> Option<(int, Seq<int>, bool)> {
    let ie = run_end(s, a, b, CharClass::Dotted);
    if ie <= a {
        None
    } else if run_end(s, a, ie, CharClass::Hex) < ie {
        match groups_from(s, a, ie, 0, 0, AddrFormat::V4) {
            Some(v) => Some((ie, seq![v / 65536, v % 65536], true)),
            None => None,
        }
    } else if ie - a > 4 || num_value(s, a, ie, 16) > 0xffff {
        None
    } else {
        Some((ie, seq![num_value(s, a, ie, 16)], false))
    }
}

/// The groups of the colon-separated items from `a` to exactly `b`, after
/// `acc`, and whether the last is a dotted-quad; a dotted-quad may only
/// come last.
pub open spec fn items(s: Seq<char>, a: int, b: int, acc: Seq<int>) -> Option<(Seq<int>, bool)>
    decreases b - a,
{
    if !(0 <= a < b <= s.len()) {
        None
    } else {
        match item_at(s, a, b) {
            None => None,
            Some((ie, g, v4)) => if ie >= b {
                Some((acc + g, v4))
            } else if v4 || ie <= a || s[ie] != ':' {
                None
            } else {
                items(s, ie + 1, b, acc + g)
            },
        }
    }
}

/// The groups of the part of an address between `a` and `b`, none for an
/// empty part.
pub open spec fn part_groups(s: Seq<char>, a: int, b: int) -> Option<(Seq<int>, bool)> {
    if a == b {
        Some((seq![], false))
    } else {
        items(s, a, b, seq![])
    }
}

/// The first `::` from `i` before `e`, or `e` where there is none.
pub open spec fn find_double_colon(s: Seq<char>, i: int, e: int) -> int
    decreases e - i,
{
    if i < 0 || i + 1 >= e || e > s.len() {
        e
    } else if s[i] == ':' && s[i + 1] == ':' {
        i
    } else {
        find_double_colon(s, i + 1, e)
    }
}

/// The value of 16-bit groups, most significant first.
pub open spec fn fold16(g: Seq<int>) -> int
    decreases g.len(),
{
    if g.len() == 0 {
        0
    } else {
        fold16(g.drop_last()) * 65536 + g.last()
    }
}

pub open spec fn zero_groups(n: int) -> Seq<int> {
    Seq::new(n as nat, |k: int| 0int)
}

/// A colon-hex address in any of its text forms: eight items, or items
/// around one `::` that stands for one or more zero groups; the last item
/// may be a dotted-quad, which counts for two groups.
#[verifier::opaque]
pub open spec fn parse_ip6_text(s: Seq<char>, i: int, e: int) -> Option<u128> {
    let d = find_double_colon(s, i, e);
    if d >= e {
        match part_groups(s, i, e) {
            Some((g, _)) => if g.len() == 8 {
                Some(fold16(g) as u128)
            } else {
                None
            },
            None => None,
        }
    } else {
        match (part_groups(s, i, d), part_groups(s, d + 2, e)) {
            (Some((h, hv4)), Some((t, _))) => if !hv4 && h.len() <= 7 && t.len() <= 7 - h.len() {
                Some(fold16(h + zero_groups(8 - h.len() - t.len()) + t) as u128)
            } else {
                None
            },
            _ => None,
        }
    }
}

proof fn lemma_pow_mono(b: int, m: nat, n: nat)
    requires
        b >= 1,
        m <= n,
    ensures
        1 <= pow_of(b, m) <= pow_of(b, n),
    decreases n,
{
    if n > m {
        lemma_pow_mono(b, m, (n - 1) as nat);
        let p = pow_of(b, (n - 1) as nat);
        assert(p <= b * p) by (nonlinear_arith)
            requires
                b >= 1,
                p >= 1,
        ;
    } else if n > 0 {
        lemma_pow_mono(b, 0, (n - 1) as nat);
        let p = pow_of(b, (n - 1) as nat);
        assert(1 <= b * p) by (nonlinear_arith)
            requires
                b >= 1,
                p >= 1,
        ;
    }
}

proof fn lemma_group_step(acc: int, v: int, p: int, radix: int)
    requires
        0 <= acc < p,
        0 <= v < radix,
        radix > 0,
    ensures
        0 <= acc * radix + v < p * radix,
{
    assert(acc * radix + v < p * radix) by (nonlinear_arith)
        requires
            0 <= acc < p,
            0 <= v < radix,
            radix > 0,
    ;
    assert(acc * radix >= 0) by (nonlinear_arith)
        requires
            0 <= acc,
            radix > 0,
    ;
}

fn groups_exec(s: &Vec<char>, i: usize, e: usize, n: usize, acc: u128, f: AddrFormat) -> (r: Option<
    u128,
>)
    requires
        i <= e <= s@.len(),
        0 <= n < f.groups(),
        acc < pow_of(f.radix(), n as nat),
    ensures
        match groups_from(s@, i as int, e as int, n as int, acc as int, f) {
            Some(a) => r == Some(a as u128) && 0 <= a < pow_of(f.radix(), f.groups() as nat),
            None => r is None,
        },
    decreases f.groups() - n,
{
    let v4 = match f {
        AddrFormat::V4 => true,
        AddrFormat::V6 => false,
    };
    let class = if v4 {
        CharClass::Digit
    } else {
        CharClass::Hex
    };
    let max_digits: usize = if v4 {
        3
    } else {
        4
    };
    let base: u64 = if v4 {
        10
    } else {
        16
    };
    let radix: u128 = if v4 {
        256
    } else {
        65536
    };
    let sep = if v4 {
        '.'
    } else {
        ':'
    };
    let groups: usize = if v4 {
        4
    } else {
        8
    };
    assert(class == f.class() && max_digits == f.max_digits() && base == f.base() && radix
        == f.radix() && sep == f.sep() && groups == f.groups());
    let g = run_end_exec(s, i, e, class);
    if g == i || g - i > max_digits {
        return None;
    }
    let v = match number(s, i, g, base, (radix - 1) as u64) {
        Some(v) => v,
        None => {
            return None;
        },
    };
    proof {
        lemma_group_step(acc as int, v as int, pow_of(f.radix(), n as nat), f.radix());
        reveal_with_fuel(pow_of, 9);
        assert(pow_of(f.radix(), (n + 1) as nat) == pow_of(f.radix(), n as nat) * f.radix());
        assert(pow_of(256, 4) == 0x1_0000_0000);
        assert(pow_of(65536, 8) == 0x1_0000_0000_0000_0000_0000_0000_0000_0000);
        lemma_pow_mono(f.radix(), (n + 1) as nat, f.groups() as nat);
    }
    let acc2 = acc * radix + v as u128;
    if n == groups - 1 {
        if g == e {
            Some(acc2)
        } else {
            None
        }
    } else if g < e && s[g] == sep {
        groups_exec(s, g + 1, e, n + 1, acc2, f)
    } else {
        None
    }
}

fn parse_ip_exec(s: &Vec<char>, i: usize, e: usize) -> (r: Option<IpAddr>)
    requires
        i <= e <= s@.len(),
    ensures
        r == parse_ip(s@, i as int, e as int),
{
    proof {
        reveal_with_fuel(pow_of, 9);
        assert(pow_of(256, 0) == 1);
        assert(pow_of(65536, 0) == 1);
    }
    match groups_exec(s, i, e, 0, 0, AddrFormat::V4) {
        Some(a) => {
            proof {
                assert(pow_of(256, 4) == 0x1_0000_0000);
            }
            Some(IpAddr::V4(a as u32))
        },
        None => match groups_exec(s, i, e, 0, 0, AddrFormat::V6) {
            Some(a) => Some(IpAddr::V6(a)),
            None => match ip6_text_exec(s, i, e) {
                Some(a) => Some(IpAddr::V6(a)),
                None => None,
            },
        },
    }
}

pub open spec fn ints(v: Seq<u64>) -> Seq<int> {
    v.map_values(|x: u64| x as int)
}

pub open spec fn small_groups(v: Seq<u64>) -> bool {
    forall|k: int| 0 <= k < v.len() ==> #[trigger] v[k] < 65536
}

proof fn lemma_ints_push(v: Seq<u64>, x: u64)
    ensures
        ints(v.push(x)) == ints(v) + seq![x as int],
{
    assert(ints(v.push(x)) =~= ints(v) + seq![x as int]);
}

fn items_exec(s: &Vec<char>, a: usize, b: usize, acc: &mut Vec<u64>) -> (r: Option<bool>)
    requires
        b <= s@.len(),
        small_groups(old(acc)@),
    ensures
        match items(s@, a as int, b as int, ints(old(acc)@)) {
            Some((g, v4)) => r == Some(v4) && ints(final(acc)@) == g && small_groups(final(acc)@),
            None => r is None,
        },
    decreases b - a,
{
    if a >= b {
        return None;
    }
    let ie = run_end_exec(s, a, b, CharClass::Dotted);
    if ie <= a {
        return None;
    }
    let he = run_end_exec(s, a, ie, CharClass::Hex);
    let ghost before = acc@;
    let v4: bool;
    if he < ie {
        proof {
            reveal_with_fuel(pow_of, 5);
            assert(pow_of(256, 0) == 1);
            assert(pow_of(256, 4) == 0x1_0000_0000);
        }
        match groups_exec(s, a, ie, 0, 0, AddrFormat::V4) {
            Some(v) => {
                let hi = (v / 65536) as u64;
                let lo = (v % 65536) as u64;
                acc.push(hi);
                proof {
                    lemma_ints_push(before, hi);
                }
                acc.push(lo);
                proof {
                    lemma_ints_push(before.push(hi), lo);
                    assert(ints(acc@) =~= ints(before) + seq![v as int / 65536, v as int % 65536]);
                    assert forall|k: int| 0 <= k < acc@.len() implies #[trigger] acc@[k] < 65536 by {
                        if k < before.len() {
                            assert(acc@[k] == before[k]);
                        }
                    }
                }
                v4 = true;
            },
            None => {
                return None;
            },
        }
    } else {
        if ie - a > 4 {
            return None;
        }
        match number(s, a, ie, 16, 0xffff) {
            Some(v) => {
                acc.push(v);
                proof {
                    lemma_ints_push(before, v);
                    assert forall|k: int| 0 <= k < acc@.len() implies #[trigger] acc@[k] < 65536 by {
                        if k < before.len() {
                            assert(acc@[k] == before[k]);
                        }
                    }
                }
                v4 = false;
            },
            None => {
                return None;
            },
        }
    }
    if ie >= b {
        return Some(v4);
    }
    if v4 || s[ie] != ':' {
        return None;
    }
    items_exec(s, ie + 1, b, acc)
}

fn part_groups_exec(s: &Vec<char>, a: usize, b: usize, acc: &mut Vec<u64>) -> (r: Option<bool>)
    requires
        b <= s@.len(),
        old(acc)@.len() == 0,
    ensures
        match part_groups(s@, a as int, b as int) {
            Some((g, v4)) => r == Some(v4) && ints(final(acc)@) == g && small_groups(final(acc)@),
            None => r is None,
        },
{
    if a == b {
        assert(ints(acc@) =~= Seq::<int>::empty());
        return Some(false);
    }
    assert(ints(acc@) =~= Seq::<int>::empty());
    items_exec(s, a, b, acc)
}

fn find_double_colon_exec(s: &Vec<char>, i: usize, e: usize) -> (r: usize)
    requires
        i <= e <= s@.len(),
    ensures
        r == find_double_colon(s@, i as int, e as int),
        i <= r <= e,
        r < e ==> r + 1 < e,
{
    let mut j = i;
    while j < e && e - j > 1
        invariant
            i <= j <= e,
            e <= s@.len(),
            find_double_colon(s@, j as int, e as int) == find_double_colon(s@, i as int, e as int),
        decreases e - j,
    {
        if s[j] == ':' && s[j + 1] == ':' {
            return j;
        }
        j = j + 1;
    }
    e
}

fn fold16_exec(g: &Vec<u64>) -> (r: u128)
    requires
        g@.len() == 8,
        small_groups(g@),
    ensures
        r as int == fold16(ints(g@)),
{
    let mut acc: u128 = 0;
    let mut k: usize = 0;
    proof {
        reveal_with_fuel(pow_of, 9);
        assert(ints(g@).take(0) =~= Seq::<int>::empty());
    }
    while k < 8
        invariant
            k <= 8,
            g@.len() == 8,
            small_groups(g@),
            acc as int == fold16(ints(g@).take(k as int)),
            acc < pow_of(65536, k as nat),
        decreases 8 - k,
    {
        proof {
            lemma_group_step(acc as int, g@[k as int] as int, pow_of(65536, k as nat), 65536);
            reveal_with_fuel(pow_of, 9);
            assert(pow_of(65536, (k + 1) as nat) == pow_of(65536, k as nat) * 65536);
            assert(pow_of(65536, 8) == 0x1_0000_0000_0000_0000_0000_0000_0000_0000);
            lemma_pow_mono(65536, (k + 1) as nat, 8);
            assert(ints(g@).take(k + 1).drop_last() =~= ints(g@).take(k as int));
        }
        acc = acc * 65536 + g[k] as u128;
        k = k + 1;
    }
    assert(ints(g@).take(8) =~= ints(g@));
    acc
}

fn ip6_text_exec(s: &Vec<char>, i: usize, e: usize) -> (r: Option<u128>)
    requires
        i <= e <= s@.len(),
    ensures
        r == parse_ip6_text(s@, i as int, e as int),
{
    reveal(parse_ip6_text);
    let d = find_double_colon_exec(s, i, e);
    if d >= e {
        let mut g: Vec<u64> = Vec::new();
        match part_groups_exec(s, i, e, &mut g) {
            Some(_) => if g.len() == 8 {
                Some(fold16_exec(&g))
            } else {
                None
            },
            None => None,
        }
    } else {
        let mut h: Vec<u64> = Vec::new();
        let hr = part_groups_exec(s, i, d, &mut h);
        let mut t: Vec<u64> = Vec::new();
        let tr = part_groups_exec(s, d + 2, e, &mut t);
        match (hr, tr) {
            (Some(hv4), Some(_)) => {
                if !hv4 && h.len() <= 7 && t.len() <= 7 - h.len() {
                    let zeros = 8 - h.len() - t.len();
                    let mut all: Vec<u64> = Vec::new();
                    let mut k: usize = 0;
                    while k < h.len()
                        invariant
                            k <= h@.len(),
                            all@ == h@.subrange(0, k as int),
                        decreases h@.len() - k,
                    {
                        all.push(h[k]);
                        k = k + 1;
                        assert(all@ =~= h@.subrange(0, k as int));
                    }
                    let mut z: usize = 0;
                    while z < zeros
                        invariant
                            z <= zeros,
                            k == h@.len(),
                            all@ == h@.subrange(0, k as int) + Seq::new(z as nat, |q: int| 0u64),
                        decreases zeros - z,
                    {
                        all.push(0);
                        z = z + 1;
                        assert(all@ =~= h@.subrange(0, k as int) + Seq::new(z as nat, |q: int| 0u64));
                    }
                    let mut m: usize = 0;
                    while m < t.len()
                        invariant
                            m <= t@.len(),
                            z == zeros,
                            k == h@.len(),
                            all@ == h@.subrange(0, k as int) + Seq::new(z as nat, |q: int| 0u64)
                                + t@.subrange(0, m as int),
                        decreases t@.len() - m,
                    {
                        all.push(t[m]);
                        m = m + 1;
                        assert(all@ =~= h@.subrange(0, k as int) + Seq::new(z as nat, |q: int| 0u64)
                            + t@.subrange(0, m as int));
                    }
                    proof {
                        assert(h@.subrange(0, k as int) =~= h@);
                        assert(t@.subrange(0, m as int) =~= t@);
                        assert(ints(all@) =~= ints(h@) + zero_groups(8 - ints(h@).len() - ints(
                            t@,
                        ).len()) + ints(t@));
                        assert forall|q: int| 0 <= q < all@.len() implies #[trigger] all@[q]
                            < 65536 by {
                            if q < h@.len() {
                                assert(all@[q] == h@[q]);
                            } else if q >= h@.len() + zeros {
                                assert(all@[q] == t@[q - h@.len() - zeros]);
                            }
                        }
                    }
                    Some(fold16_exec(&all))
                } else {
                    None
                }
            },
            _ => None,
        }
    }
}

/// The words of the filter language.
#[derive(Clone, Copy, Debug, PartialEq, Eq, Structural)]
pub enum Kw {
    Not,
    And,
    Or,
    Tcp,
    Udp,
    Ipv4,
    Ipv6,
    Pid,
    Port,
    Lport,
    Rport,
    Addr,
    Laddr,
    Raddr,
}

pub open spec fn keyword(w: Seq<char>) -> Option<Kw> {
    if w == seq!['n', 'o', 't'] {
        Some(Kw::Not)
    } else if w == seq!['a', 'n', 'd'] {
        Some(Kw::And)
    } else if w == seq!['o', 'r'] {
        Some(Kw::Or)
    } else if w == seq!['t', 'c', 'p'] {
        Some(Kw::Tcp)
    } else if w == seq!['u', 'd', 'p'] {
        Some(Kw::Udp)
    } else if w == seq!['i', 'p', 'v', '4'] {
        Some(Kw::Ipv4)
    } else if w == seq!['i', 'p', 'v', '6'] {
        Some(Kw::Ipv6)
    } else if w == seq!['p', 'i', 'd'] {
        Some(Kw::Pid)
    } else if w == seq!['p', 'o', 'r', 't'] {
        Some(Kw::Port)
    } else if w == seq!['l', 'p', 'o', 'r', 't'] {
        Some(Kw::Lport)
    } else if w == seq!['r', 'p', 'o', 'r', 't'] {
        Some(Kw::Rport)
    } else if w == seq!['a', 'd', 'd', 'r'] {
        Some(Kw::Addr)
    } else if w == seq!['l', 'a', 'd', 'd', 'r'] {
        Some(Kw::Laddr)
    } else if w == seq!['r', 'a', 'd', 'd', 'r'] {
        Some(Kw::Raddr)
    } else {
        None
    }
}

fn seg_is(s: &Vec<char>, i: usize, e: usize, kw: &[char]) -> (r: bool)
    requires
        i <= e <= s@.len(),
    ensures
        r == (s@.subrange(i as int, e as int) == kw@),
{
    if e - i != kw.len() {
        return false;
    }
    let mut j: usize = 0;
    while j < kw.len()
        invariant
            e - i == kw@.len(),
            i <= e <= s@.len(),
            j <= kw@.len(),
            forall|k: int| 0 <= k < j ==> s@[i + k] == kw@[k],
        decreases kw@.len() - j,
    {
        if s[i + j] != kw[j] {
            assert(s@.subrange(i as int, e as int)[j as int] != kw@[j as int]);
            return false;
        }
        j = j + 1;
    }
    assert(s@.subrange(i as int, e as int) =~= kw@);
    true
}

fn keyword_exec(s: &Vec<char>, i: usize, e: usize) -> (r: Option<Kw>)
    requires
        i <= e <= s@.len(),
    ensures
        r == keyword(s@.subrange(i as int, e as int)),
{
    if seg_is(s, i, e, &['n', 'o', 't']) {
        assert(['n', 'o', 't']@ =~= seq!['n', 'o', 't']);
        Some(Kw::Not)
    } else if seg_is(s, i, e, &['a', 'n', 'd']) {
        assert(['n', 'o', 't']@ =~= seq!['n', 'o', 't']);
        assert(['a', 'n', 'd']@ =~= seq!['a', 'n', 'd']);
        Some(Kw::And)
    } else {
        proof {
            assert(['n', 'o', 't']@ =~= seq!['n', 'o', 't']);
            assert(['a', 'n', 'd']@ =~= seq!['a', 'n', 'd']);
        }
        keyword_rest(s, i, e)
    }
}

fn keyword_rest(s: &Vec<char>, i: usize, e: usize) -> (r: Option<Kw>)
    requires
        i <= e <= s@.len(),
        s@.subrange(i as int, e as int) != seq!['n', 'o', 't'],
        s@.subrange(i as int, e as int) != seq!['a', 'n', 'd'],
    ensures
        r == keyword(s@.subrange(i as int, e as int)),
{
    proof {
        assert(['o', 'r']@ =~= seq!['o', 'r']);
        assert(['t', 'c', 'p']@ =~= seq!['t', 'c', 'p']);
        assert(['u', 'd', 'p']@ =~= seq!['u', 'd', 'p']);
        assert(['i', 'p', 'v', '4']@ =~= seq!['i', 'p', 'v', '4']);
        assert(['i', 'p', 'v', '6']@ =~= seq!['i', 'p', 'v', '6']);
        assert(['p', 'i', 'd']@ =~= seq!['p', 'i', 'd']);
        assert(['p', 'o', 'r', 't']@ =~= seq!['p', 'o', 'r', 't']);
        assert(['l', 'p', 'o', 'r', 't']@ =~= seq!['l', 'p', 'o', 'r', 't']);
        assert(['r', 'p', 'o', 'r', 't']@ =~= seq!['r', 'p', 'o', 'r', 't']);
        assert(['a', 'd', 'd', 'r']@ =~= seq!['a', 'd', 'd', 'r']);
        assert(['l', 'a', 'd', 'd', 'r']@ =~= seq!['l', 'a', 'd', 'd', 'r']);
        assert(['r', 'a', 'd', 'd', 'r']@ =~= seq!['r', 'a', 'd', 'd', 'r']);
    }
    if seg_is(s, i, e, &['o', 'r']) {
        Some(Kw::Or)
    } else if seg_is(s, i, e, &['t', 'c', 'p']) {
        Some(Kw::Tcp)
    } else if seg_is(s, i, e, &['u', 'd', 'p']) {
        Some(Kw::Udp)
    } else if seg_is(s, i, e, &['i', 'p', 'v', '4']) {
        Some(Kw::Ipv4)
    } else if seg_is(s, i, e, &['i', 'p', 'v', '6']) {
        Some(Kw::Ipv6)
    } else if seg_is(s, i, e, &['p', 'i', 'd']) {
        Some(Kw::Pid)
    } else if seg_is(s, i, e, &['p', 'o', 'r', 't']) {
        Some(Kw::Port)
    } else if seg_is(s, i, e, &['l', 'p', 'o', 'r', 't']) {
        Some(Kw::Lport)
    } else if seg_is(s, i, e, &['r', 'p', 'o', 'r', 't']) {
        Some(Kw::Rport)
    } else if seg_is(s, i, e, &['a', 'd', 'd', 'r']) {
        Some(Kw::Addr)
    } else if seg_is(s, i, e, &['l', 'a', 'd', 'd', 'r']) {
        Some(Kw::Laddr)
    } else if seg_is(s, i, e, &['r', 'a', 'd', 'd', 'r']) {
        Some(Kw::Raddr)
    } else {
        None
    }
}

/// A parse result: an expression and the position after it.
pub type PResult = Result<(Expr, int), ParseError>;

pub open spec fn within(s: Seq<char>, a: int, b: int) -> bool {
    0 <= a <= b <= s.len()
}

/// The atom of a word that stands alone.
pub open spec fn plain_atom(kw: Kw) -> Option<Expr> {
    match kw {
        Kw::Tcp => Some(Expr::Protocol(Protocol::Tcp)),
        Kw::Udp => Some(Expr::Protocol(Protocol::Udp)),
        Kw::Ipv4 => Some(Expr::IpVersion(IpVersion::IpV4)),
        Kw::Ipv6 => Some(Expr::IpVersion(IpVersion::IpV6)),
        _ => None,
    }
}

/// The largest number that a bracketed word takes: a pid or a port.
pub open spec fn number_max(kw: Kw) -> Option<int> {
    match kw {
        Kw::Pid => Some(0xffff_ffff),
        Kw::Port | Kw::Lport | Kw::Rport => Some(0xffff),
        _ => None,
    }
}

pub open spec fn number_atom(kw: Kw, v: int) -> Expr {
    match kw {
        Kw::Pid => Expr::Pid(v as u32),
        Kw::Port => Expr::Port(v as u16),
        Kw::Lport => Expr::LocalPort(v as u16),
        _ => Expr::RemotePort(v as u16),
    }
}

pub open spec fn is_addr_kw(kw: Kw) -> bool {
    kw == Kw::Addr || kw == Kw::Laddr || kw == Kw::Raddr
}

pub open spec fn addr_atom(kw: Kw, ip: IpAddr) -> Expr {
    match kw {
        Kw::Addr => Expr::Addr(ip),
        Kw::Laddr => Expr::LocalAddr(ip),
        _ => Expr::RemoteAddr(ip),
    }
}

/// An error at `i`: the end of input there, else an unexpected token.
pub open spec fn missing_at(s: Seq<char>, i: int) -> ParseError {
    if i >= s.len() {
        err_at(i, ParseErrorKind::UnexpectedEnd)
    } else {
        err_at(i, ParseErrorKind::UnexpectedToken)
    }
}

/// The bracket `[..]` of the word `kw` that opens at `c - 1`.
pub open spec fn parse_bracket(s: Seq<char>, kw: Kw, c: int) -> PResult {
    match number_max(kw) {
        Some(max) => {
            let d = run_end(s, c, s.len() as int, CharClass::Digit);
            if d == c {
                Err(missing_at(s, c))
            } else if d >= s.len() || s[d] != ']' {
                Err(missing_at(s, d))
            } else if num_value(s, c, d, 10) > max {
                Err(err_at(d, ParseErrorKind::InvalidNumber))
            } else {
                Ok((number_atom(kw, num_value(s, c, d, 10)), d + 1))
            }
        },
        None => {
            let a = run_end(s, c, s.len() as int, CharClass::Addr);
            if a >= s.len() || s[a] != ']' {
                Err(missing_at(s, a))
            } else {
                match parse_ip(s, c, a) {
                    Some(ip) => Ok((addr_atom(kw, ip), a + 1)),
                    None => Err(err_at(c, ParseErrorKind::InvalidAddress)),
                }
            }
        },
    }
}

/// `term := '(' expr ')' | 'not' term | atom`
pub open spec fn parse_term(s: Seq<char>, i: int) -> PResult
    decreases s.len() - i, 0int,
{
    let j = skip_ws(s, i);
    if !within(s, i, j) || j >= s.len() {
        Err(err_at(j, ParseErrorKind::UnexpectedEnd))
    } else if s[j] == '(' {
        match parse_or(s, j + 1) {
            Err(x) => Err(x),
            Ok((e, k)) => {
                let m = skip_ws(s, k);
                if m < s.len() && s[m] == ')' {
                    Ok((e, m + 1))
                } else {
                    Err(missing_at(s, m))
                }
            },
        }
    } else {
        let we = run_end(s, j, s.len() as int, CharClass::Word);
        if !within(s, j, we) {
            Err(err_at(j, ParseErrorKind::UnexpectedToken))
        } else {
            match keyword(s.subrange(j, we)) {
                Some(Kw::Not) => if we <= i {
                    Err(err_at(j, ParseErrorKind::UnexpectedToken))
                } else {
                    match parse_term(s, we) {
                        Err(x) => Err(x),
                        Ok((e, k)) => Ok((Expr::Not(Box::new(e)), k)),
                    }
                },
                Some(kw) => match plain_atom(kw) {
                    Some(e) => Ok((e, we)),
                    None => if kw == Kw::And || kw == Kw::Or {
                        Err(err_at(j, ParseErrorKind::UnexpectedToken))
                    } else if we < s.len() && s[we] == '[' {
                        parse_bracket(s, kw, we + 1)
                    } else {
                        Err(missing_at(s, we))
                    },
                },
                None => Err(err_at(j, ParseErrorKind::UnexpectedToken)),
            }
        }
    }
}

/// The position after the operator word `op` that follows `i`, if one does.
pub open spec fn operator_after(s: Seq<char>, i: int, op: Kw) -> Option<int> {
    let j = skip_ws(s, i);
    let we = run_end(s, j, s.len() as int, CharClass::Word);
    if within(s, i, j) && within(s, j, we) && we > i && keyword(s.subrange(j, we)) == Some(op) {
        Some(we)
    } else {
        None
    }
}

/// `('and' term)*` after `acc`, grouped to the left.
pub open spec fn and_tail(s: Seq<char>, i: int, acc: Expr) -> PResult
    decreases s.len() - i, 1int,
{
    match operator_after(s, i, Kw::And) {
        Some(we) => match parse_term(s, we) {
            Err(x) => Err(x),
            Ok((e, k)) => if k <= i || k > s.len() {
                Err(err_at(k, ParseErrorKind::UnexpectedToken))
            } else {
                and_tail(s, k, Expr::And(Box::new(acc), Box::new(e)))
            },
        },
        None => Ok((acc, i)),
    }
}

/// `term ('and' term)*`
pub open spec fn parse_and(s: Seq<char>, i: int) -> PResult
    decreases s.len() - i, 2int,
{
    match parse_term(s, i) {
        Err(x) => Err(x),
        Ok((e, k)) => if k <= i || k > s.len() {
            Err(err_at(k, ParseErrorKind::UnexpectedToken))
        } else {
            and_tail(s, k, e)
        },
    }
}

/// `('or' and)*` after `acc`, grouped to the left.
pub open spec fn or_tail(s: Seq<char>, i: int, acc: Expr) -> PResult
    decreases s.len() - i, 3int,
{
    match operator_after(s, i, Kw::Or) {
        Some(we) => match parse_and(s, we) {
            Err(x) => Err(x),
            Ok((e, k)) => if k <= i || k > s.len() {
                Err(err_at(k, ParseErrorKind::UnexpectedToken))
            } else {
                or_tail(s, k, Expr::Or(Box::new(acc), Box::new(e)))
            },
        },
        None => Ok((acc, i)),
    }
}

/// `and ('or' and)*`
pub open spec fn parse_or(s: Seq<char>, i: int) -> PResult
    decreases s.len() - i, 4int,
{
    match parse_and(s, i) {
        Err(x) => Err(x),
        Ok((e, k)) => if k <= i || k > s.len() {
            Err(err_at(k, ParseErrorKind::UnexpectedToken))
        } else {
            or_tail(s, k, e)
        },
    }
}

/// A whole filter: an expression with nothing but blanks after it.
pub open spec fn parse_filter(s: Seq<char>) -> Result<Expr, ParseError> {
    match parse_or(s, 0) {
        Err(x) => Err(x),
        Ok((e, k)) => {
            let m = skip_ws(s, k);
            if m == s.len() {
                Ok(e)
            } else {
                Err(err_at(m, ParseErrorKind::UnexpectedToken))
            }
        },
    }
}

/// The parse result with its position widened to an integer.
pub open spec fn lift(r: Result<(Expr, usize), ParseError>) -> PResult {
    match r {
        Ok((e, k)) => Ok((e, k as int)),
        Err(x) => Err(x),
    }
}

/// The position of a parse result that succeeded.
pub open spec fn end_of(r: Result<(Expr, usize), ParseError>) -> int {
    match r {
        Ok((_, k)) => k as int,
        Err(_) => 0,
    }
}

fn err_exec(i: usize, kind: ParseErrorKind) -> (r: ParseError)
    requires
        i < usize::MAX,
    ensures
        r == err_at(i as int, kind),
{
    ParseError { line: 1, column: i + 1, kind }
}

fn missing_exec(s: &Vec<char>, i: usize) -> (r: ParseError)
    requires
        i < usize::MAX,
    ensures
        r == missing_at(s@, i as int),
{
    if i >= s.len() {
        err_exec(i, ParseErrorKind::UnexpectedEnd)
    } else {
        err_exec(i, ParseErrorKind::UnexpectedToken)
    }
}

proof fn lemma_keyword_len(w: Seq<char>)
    ensures
        keyword(w) is Some ==> w.len() >= 2,
        keyword(w) == Some(Kw::Not) ==> w.len() == 3,
        keyword(w) == Some(Kw::And) ==> w.len() == 3,
        keyword(w) == Some(Kw::Or) ==> w.len() == 2,
{
}

fn parse_bracket_exec(s: &Vec<char>, kw: Kw, c: usize) -> (r: Result<(Expr, usize), ParseError>)
    requires
        1 <= c <= s@.len() < usize::MAX,
    ensures
        lift(r) == parse_bracket(s@, kw, c as int),
        r is Ok ==> c < end_of(r) <= s@.len(),
{
    let n = s.len();
    let max: Option<u64> = match kw {
        Kw::Pid => Some(0xffff_ffff),
        Kw::Port | Kw::Lport | Kw::Rport => Some(0xffff),
        _ => None,
    };
    match max {
        Some(max) => {
            let d = run_end_exec(s, c, n, CharClass::Digit);
            if d == c {
                Err(missing_exec(s, c))
            } else if d >= n || s[d] != ']' {
                Err(missing_exec(s, d))
            } else {
                match number(s, c, d, 10, max) {
                    None => Err(err_exec(d, ParseErrorKind::InvalidNumber)),
                    Some(v) => {
                        let e = match kw {
                            Kw::Pid => Expr::Pid(v as u32),
                            Kw::Port => Expr::Port(v as u16),
                            Kw::Lport => Expr::LocalPort(v as u16),
                            _ => Expr::RemotePort(v as u16),
                        };
                        Ok((e, d + 1))
                    },
                }
            }
        },
        None => {
            let a = run_end_exec(s, c, n, CharClass::Addr);
            if a >= n || s[a] != ']' {
                Err(missing_exec(s, a))
            } else {
                match parse_ip_exec(s, c, a) {
                    Some(ip) => {
                        let e = match kw {
                            Kw::Addr => Expr::Addr(ip),
                            Kw::Laddr => Expr::LocalAddr(ip),
                            _ => Expr::RemoteAddr(ip),
                        };
                        Ok((e, a + 1))
                    },
                    None => Err(err_exec(c, ParseErrorKind::InvalidAddress)),
                }
            }
        },
    }
}

fn term_exec(s: &Vec<char>, i: usize) -> (r: Result<(Expr, usize), ParseError>)
    requires
        i <= s@.len() < usize::MAX,
    ensures
        lift(r) == parse_term(s@, i as int),
        r is Ok ==> i < end_of(r) <= s@.len(),
    decreases s@.len() - i, 0int,
{
    let n = s.len();
    let j = run_end_exec(s, i, n, CharClass::Blank);
    if j >= n {
        return Err(err_exec(j, ParseErrorKind::UnexpectedEnd));
    }
    if s[j] == '(' {
        match or_exec(s, j + 1) {
            Err(x) => Err(x),
            Ok((e, k)) => {
                let m = run_end_exec(s, k, n, CharClass::Blank);
                if m < n && s[m] == ')' {
                    Ok((e, m + 1))
                } else {
                    Err(missing_exec(s, m))
                }
            },
        }
    } else {
        let we = run_end_exec(s, j, n, CharClass::Word);
        let kw = keyword_exec(s, j, we);
        proof {
            lemma_keyword_len(s@.subrange(j as int, we as int));
        }
        match kw {
            Some(Kw::Not) => {
                match term_exec(s, we) {
                    Err(x) => Err(x),
                    Ok((e, k)) => Ok((Expr::Not(Box::new(e)), k)),
                }
            },
            Some(kw) => {
                let atom = match kw {
                    Kw::Tcp => Some(Expr::Protocol(Protocol::Tcp)),
                    Kw::Udp => Some(Expr::Protocol(Protocol::Udp)),
                    Kw::Ipv4 => Some(Expr::IpVersion(IpVersion::IpV4)),
                    Kw::Ipv6 => Some(Expr::IpVersion(IpVersion::IpV6)),
                    _ => None,
                };
                match atom {
                    Some(e) => Ok((e, we)),
                    None => {
                        if kw == Kw::And || kw == Kw::Or {
                            Err(err_exec(j, ParseErrorKind::UnexpectedToken))
                        } else if we < n && s[we] == '[' {
                            parse_bracket_exec(s, kw, we + 1)
                        } else {
                            Err(missing_exec(s, we))
                        }
                    },
                }
            },
            None => Err(err_exec(j, ParseErrorKind::UnexpectedToken)),
        }
    }
}

fn operator_after_exec(s: &Vec<char>, i: usize, op: Kw) -> (r: Option<usize>)
    requires
        i <= s@.len() < usize::MAX,
    ensures
        match r {
            Some(we) => operator_after(s@, i as int, op) == Some(we as int),
            None => operator_after(s@, i as int, op) is None,
        },
{
    let n = s.len();
    let j = run_end_exec(s, i, n, CharClass::Blank);
    let we = run_end_exec(s, j, n, CharClass::Word);
    if we > i && keyword_exec(s, j, we) == Some(op) {
        Some(we)
    } else {
        None
    }
}

fn and_tail_exec(s: &Vec<char>, i: usize, acc: Expr) -> (r: Result<(Expr, usize), ParseError>)
    requires
        i <= s@.len() < usize::MAX,
    ensures
        lift(r) == and_tail(s@, i as int, acc),
        r is Ok ==> i <= end_of(r) <= s@.len(),
    decreases s@.len() - i, 1int,
{
    match operator_after_exec(s, i, Kw::And) {
        Some(we) => match term_exec(s, we) {
            Err(x) => Err(x),
            Ok((e, k)) => and_tail_exec(s, k, Expr::And(Box::new(acc), Box::new(e))),
        },
        None => Ok((acc, i)),
    }
}

fn and_exec(s: &Vec<char>, i: usize) -> (r: Result<(Expr, usize), ParseError>)
    requires
        i <= s@.len() < usize::MAX,
    ensures
        lift(r) == parse_and(s@, i as int),
        r is Ok ==> i < end_of(r) <= s@.len(),
    decreases s@.len() - i, 2int,
{
    match term_exec(s, i) {
        Err(x) => Err(x),
        Ok((e, k)) => and_tail_exec(s, k, e),
    }
}

fn or_tail_exec(s: &Vec<char>, i: usize, acc: Expr) -> (r: Result<(Expr, usize), ParseError>)
    requires
        i <= s@.len() < usize::MAX,
    ensures
        lift(r) == or_tail(s@, i as int, acc),
        r is Ok ==> i <= end_of(r) <= s@.len(),
    decreases s@.len() - i, 3int,
{
    match operator_after_exec(s, i, Kw::Or) {
        Some(we) => match and_exec(s, we) {
            Err(x) => Err(x),
            Ok((e, k)) => or_tail_exec(s, k, Expr::Or(Box::new(acc), Box::new(e))),
        },
        None => Ok((acc, i)),
    }
}

fn or_exec(s: &Vec<char>, i: usize) -> (r: Result<(Expr, usize), ParseError>)
    requires
        i <= s@.len() < usize::MAX,
    ensures
        lift(r) == parse_or(s@, i as int),
        r is Ok ==> i < end_of(r) <= s@.len(),
    decreases s@.len() - i, 4int,
{
    match and_exec(s, i) {
        Err(x) => Err(x),
        Ok((e, k)) => or_tail_exec(s, k, e),
    }
}

fn chars_of(input: &str) -> (r: Vec<char>)
    ensures
        r@ == input@,
{
    let n = input.unicode_len();
    let mut r: Vec<char> = Vec::new();
    let mut i: usize = 0;
    while i < n
        invariant
            n == input@.len(),
            i <= n,
            r@ == input@.subrange(0, i as int),
        decreases n - i,
    {
        r.push(input.get_char(i));
        i = i + 1;
        assert(r@ =~= input@.subrange(0, i as int));
    }
    assert(input@.subrange(0, n as int) =~= input@);
    r
}

/// Parses a filter expression: `not` binds tighter than `and`, which binds
/// tighter than `or`; both operators group to the left.
pub fn parse_expr(input: &str) -> (r: Result<Expr, ParseError>)
    requires
        input@.len() < usize::MAX,
    ensures
        r == parse_filter(input@),
{
    let s = chars_of(input);
    match or_exec(&s, 0) {
        Err(x) => Err(x),
        Ok((e, k)) => {
            let m = run_end_exec(&s, k, s.len(), CharClass::Blank);
            if m == s.len() {
                Ok(e)
            } else {
                Err(err_exec(m, ParseErrorKind::UnexpectedToken))
            }
        },
    }
}

impl Interpretor {
    /// An interpretor of the expression that `input` writes.
    pub fn parse(input: &str) -> (r: Result<Interpretor, ParseError>)
        requires
            input@.len() < usize::MAX,
        ensures
            match parse_filter(input@) {
                Ok(e) => r is Ok && r->Ok_0.spec_ast() == e,
                Err(x) => r == Err::<Interpretor, ParseError>(x),
            },
    {
        match parse_expr(input) {
            Ok(e) => Ok(Interpretor::new(e)),
            Err(x) => Err(x),
        }
    }
}

} // verus!
