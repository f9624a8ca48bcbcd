//! The window identity scheme.
//!
//! Every wallpaper window is addressed by a stable, human-readable label:
//! `"wallpaper__main"` for the default window, and
//! `"wallpaper__{x}_{y}__{w}_{h}"` for a window derived from a monitor's
//! physical origin `(x, y)` and size `(w, h)`. The scheme is deterministic,
//! and injective over distinct origins: two monitors whose origins differ
//! always get distinct labels, while monitors that share an origin collide by
//! design (that collision is what drives the dedup rule at bootstrap).

use vstd::prelude::*;

use crate::geometry::MonitorInfo;

verus! {

/// The character that renders a single decimal digit.
pub open spec fn digit_char(d: int) -> char {
    if d == 0 {
        '0'
    } else if d == 1 {
        '1'
    } else if d == 2 {
        '2'
    } else if d == 3 {
        '3'
    } else if d == 4 {
        '4'
    } else if d == 5 {
        '5'
    } else if d == 6 {
        '6'
    } else if d == 7 {
        '7'
    } else if d == 8 {
        '8'
    } else {
        '9'
    }
}

/// `c` is one of the ten decimal digit characters.
pub open spec fn is_digit_char(c: char) -> bool {
    c == '0' || c == '1' || c == '2' || c == '3' || c == '4' || c == '5' || c == '6' || c == '7'
        || c == '8' || c == '9'
}

/// Decimal rendering of a natural number, most significant digit first, no
/// padding and no sign.
pub open spec fn dec_nat(n: nat) -> Seq<char>
    decreases n,
{
    if n < 10 {
        seq![digit_char(n as int)]
    } else {
        dec_nat(n / 10) + seq![digit_char((n % 10) as int)]
    }
}

/// Decimal rendering of an integer: a leading `'-'` for negative values,
/// otherwise exactly `dec_nat`.
pub open spec fn dec_int(v: int) -> Seq<char> {
    if v < 0 {
        seq!['-'] + dec_nat((-v) as nat)
    } else {
        dec_nat(v as nat)
    }
}

/// Every character of `dec_nat(n)` is a decimal digit, and there is at least
/// one of them.
pub proof fn lemma_dec_nat_chars(n: nat)
    ensures
        dec_nat(n).len() >= 1,
        forall|i: int| 0 <= i < dec_nat(n).len() ==> is_digit_char(#[trigger] dec_nat(n)[i]),
    decreases n,
{
    if n >= 10 {
        lemma_dec_nat_chars(n / 10);
    }
}

/// Every character of `dec_int(v)` is a digit or the sign, never `'_'`.
pub proof fn lemma_dec_int_chars(v: int)
    ensures
        dec_int(v).len() >= 1,
        forall|i: int|
            0 <= i < dec_int(v).len() ==> (is_digit_char(#[trigger] dec_int(v)[i]) || dec_int(
                v,
            )[i] == '-'),
        forall|i: int| 0 <= i < dec_int(v).len() ==> #[trigger] dec_int(v)[i] != '_',
{
    if v < 0 {
        lemma_dec_nat_chars((-v) as nat);
    } else {
        lemma_dec_nat_chars(v as nat);
    }
}

/// Decimal rendering of naturals is injective.
pub proof fn lemma_dec_nat_injective(a: nat, b: nat)
    requires
        dec_nat(a) == dec_nat(b),
    ensures
        a == b,
    decreases a,
{
    lemma_dec_nat_chars(a);
    lemma_dec_nat_chars(b);
    if a < 10 && b < 10 {
        assert(seq![digit_char(a as int)][0] == digit_char(a as int));
        assert(seq![digit_char(b as int)][0] == digit_char(b as int));
        assert(dec_nat(a)[0] == dec_nat(b)[0]);
        assert(digit_char(a as int) == digit_char(b as int));
        assert(a == b);
    } else if a < 10 {
        lemma_dec_nat_chars(b / 10);
        assert(dec_nat(b).len() >= 2);
    } else if b < 10 {
        lemma_dec_nat_chars(a / 10);
        assert(dec_nat(a).len() >= 2);
    } else {
        let sa = dec_nat(a / 10);
        let sb = dec_nat(b / 10);
        assert(dec_nat(a).len() == sa.len() + 1);
        assert(dec_nat(b).len() == sb.len() + 1);
        assert(dec_nat(a)[sa.len() as int] == digit_char((a % 10) as int));
        assert(dec_nat(b)[sb.len() as int] == digit_char((b % 10) as int));
        assert(dec_nat(a) == sa + seq![digit_char((a % 10) as int)]);
        assert(dec_nat(b) == sb + seq![digit_char((b % 10) as int)]);
        assert(sa =~= sb) by {
            assert forall|i: int| 0 <= i < sa.len() implies sa[i] == sb[i] by {
                assert((sa + seq![digit_char((a % 10) as int)])[i] == sa[i]);
                assert((sb + seq![digit_char((b % 10) as int)])[i] == sb[i]);
            }
        }
        lemma_dec_nat_injective(a / 10, b / 10);
        assert(digit_char((a % 10) as int) == digit_char((b % 10) as int));
        assert(a % 10 == b % 10);
        assert(a == 10 * (a / 10) + a % 10) by (nonlinear_arith);
        assert(b == 10 * (b / 10) + b % 10) by (nonlinear_arith);
        assert(a == b);
    }
}

/// Decimal rendering of integers is injective.
pub proof fn lemma_dec_int_injective(a: int, b: int)
    requires
        dec_int(a) == dec_int(b),
    ensures
        a == b,
{
    lemma_dec_nat_chars(if a < 0 { (-a) as nat } else { a as nat });
    lemma_dec_nat_chars(if b < 0 { (-b) as nat } else { b as nat });
    if a < 0 && b < 0 {
        let na = dec_nat((-a) as nat);
        let nb = dec_nat((-b) as nat);
        assert(dec_int(a) == seq!['-'] + na);
        assert(dec_int(b) == seq!['-'] + nb);
        assert(na =~= nb) by {
            assert forall|i: int| 0 <= i < na.len() implies na[i] == nb[i] by {
                assert((seq!['-'] + na)[i + 1] == na[i]);
                assert((seq!['-'] + nb)[i + 1] == nb[i]);
            }
        }
        lemma_dec_nat_injective((-a) as nat, (-b) as nat);
    } else if a < 0 {
        assert(dec_int(a)[0] == '-');
        assert(is_digit_char(dec_int(b)[0])) by {
            lemma_dec_nat_chars(b as nat);
        }
    } else if b < 0 {
        assert(dec_int(b)[0] == '-');
        assert(is_digit_char(dec_int(a)[0])) by {
            lemma_dec_nat_chars(a as nat);
        }
    } else {
        lemma_dec_nat_injective(a as nat, b as nat);
    }
}

/// Appends the single digit `d` to `s`.
fn push_digit(s: &mut String, d: u32)
    requires
        d < 10,
    ensures
        final (s)@ == old(s)@ + seq![digit_char(d as int)],
{
    proof {
        reveal_strlit("0");
        reveal_strlit("1");
        reveal_strlit("2");
        reveal_strlit("3");
        reveal_strlit("4");
        reveal_strlit("5");
        reveal_strlit("6");
        reveal_strlit("7");
        reveal_strlit("8");
        reveal_strlit("9");
    }
    if d == 0 {
        s.append("0");
    } else if d == 1 {
        s.append("1");
    } else if d == 2 {
        s.append("2");
    } else if d == 3 {
        s.append("3");
    } else if d == 4 {
        s.append("4");
    } else if d == 5 {
        s.append("5");
    } else if d == 6 {
        s.append("6");
    } else if d == 7 {
        s.append("7");
    } else if d == 8 {
        s.append("8");
    } else {
        s.append("9");
    }
    proof {
        assert(final (s)@ =~= old(s)@ + seq![digit_char(d as int)]);
    }
}

/// Appends the decimal rendering of `n` to `s`.
fn push_u32_decimal(s: &mut String, n: u32)
    ensures
        final (s)@ == old(s)@ + dec_nat(n as nat),
    decreases n,
{
    if n < 10 {
        push_digit(s, n);
    } else {
        push_u32_decimal(s, n / 10);
        push_digit(s, n % 10);
        proof {
            assert(final (s)@ =~= old(s)@ + dec_nat(n as nat));
        }
    }
}

/// The label of the default window, created without a monitor argument.
pub open spec fn main_label() -> Seq<char> {
    "wallpaper__main"@
}

/// The label prefix shared by every wallpaper window.
pub open spec fn label_prefix() -> Seq<char> {
    "wallpaper__"@
}

/// The label of the window assigned to a monitor with origin `(x, y)` and
/// size `(w, h)` in physical pixels: `wallpaper__{x}_{y}__{w}_{h}`.
pub open spec fn monitor_label(x: int, y: int, w: int, h: int) -> Seq<char> {
    label_prefix() + dec_int(x) + seq!['_'] + dec_int(y) + seq!['_'] + seq!['_'] + dec_int(w)
        + seq!['_'] + dec_int(h)
}

/// What `identity` returns: the main label when no monitor is given, the
/// monitor's geometry label otherwise. Only origin and size enter the label;
/// the scale factor does not.
pub open spec fn identity_spec(monitor: Option<MonitorInfo>) -> Seq<char> {
    match monitor {
        Option::None => main_label(),
        Option::Some(m) => monitor_label(m.x as int, m.y as int, m.width as int, m.height as int),
    }
}

/// The window identifier for `monitor`, per the scheme above. Deterministic,
/// free of side effects, and injective over distinct monitor origins.
pub fn identity(monitor: Option<&MonitorInfo>) -> (r: String)
    ensures
        monitor is None ==> r@ == identity_spec(None),
        monitor is Some ==> r@ == identity_spec(Some(*monitor.unwrap())),
{
    match monitor {
        None => {
            let r = String::from_str("wallpaper__main");
            r
        },
        Some(m) => {
            proof {
                reveal_strlit("_");
                reveal_strlit("__");
            }
            let mut s = String::from_str("wallpaper__");
            push_i32_decimal(&mut s, m.x);
            s.append("_");
            push_i32_decimal(&mut s, m.y);
            s.append("__");
            push_u32_decimal(&mut s, m.width);
            s.append("_");
            push_u32_decimal(&mut s, m.height);
            proof {
                assert("_"@ =~= seq!['_']);
                assert("__"@ =~= seq!['_'] + seq!['_']);
                assert(s@ =~= monitor_label(
                    m.x as int,
                    m.y as int,
                    m.width as int,
                    m.height as int,
                ));
            }
            s
        },
    }
}

/// Appends the decimal rendering of `v`, sign included, to `s`.
fn push_i32_decimal(s: &mut String, v: i32)
    ensures
        final (s)@ == old(s)@ + dec_int(v as int),
{
    if v < 0 {
        proof {
            reveal_strlit("-");
        }
        s.append("-");
        let mag: u32 = ((-(v as i64)) as u32);
        push_u32_decimal(s, mag);
        proof {
            assert(final (s)@ =~= old(s)@ + dec_int(v as int));
        }
    } else {
        push_u32_decimal(s, v as u32);
    }
}

/// Identity is deterministic: the label depends on a monitor's origin and
/// size alone, so two monitors that agree on both — whatever their scale
/// factors — get the same label.
pub proof fn lemma_identity_deterministic(m1: MonitorInfo, m2: MonitorInfo)
    requires
        m1.x == m2.x,
        m1.y == m2.y,
        m1.width == m2.width,
        m1.height == m2.height,
    ensures
        identity_spec(Some(m1)) == identity_spec(Some(m2)),
{
}

/// A separated token is decoded uniquely: if two concatenations
/// `a + "_" + b` and `c + "_" + d` are equal and neither `a` nor `c`
/// contains the separator, the tokens and the remainders agree.
proof fn lemma_sep_token_unique(a: Seq<char>, b: Seq<char>, c: Seq<char>, d: Seq<char>)
    requires
        a + seq!['_'] + b == c + seq!['_'] + d,
        forall|i: int| 0 <= i < a.len() ==> a[i] != '_',
        forall|i: int| 0 <= i < c.len() ==> c[i] != '_',
    ensures
        a == c,
        b == d,
{
    let s = a + seq!['_'] + b;
    let t = c + seq!['_'] + d;
    assert(s.len() == a.len() + 1 + b.len());
    assert(t.len() == c.len() + 1 + d.len());
    if a.len() < c.len() {
        assert(s[a.len() as int] == '_');
        assert(t[a.len() as int] == c[a.len() as int]);
        assert(false);
    }
    if c.len() < a.len() {
        assert(t[c.len() as int] == '_');
        assert(s[c.len() as int] == a[c.len() as int]);
        assert(false);
    }
    assert(a =~= c) by {
        assert forall|i: int| 0 <= i < a.len() implies a[i] == c[i] by {
            assert(s[i] == a[i]);
            assert(t[i] == c[i]);
        }
    }
    assert(b =~= d) by {
        assert forall|i: int| 0 <= i < b.len() implies b[i] == d[i] by {
            assert(s[a.len() + 1 + i] == b[i]);
            assert(t[c.len() + 1 + i] == d[i]);
        }
    }
}

/// Regrouping of `monitor_label` around its first two separators: the prefix,
/// then the `x` token, a separator, the `y` token, a separator, and the rest.
proof fn lemma_label_shape(x: int, y: int, w: int, h: int)
    ensures
        monitor_label(x, y, w, h) == label_prefix() + ((dec_int(x) + seq!['_'] + (dec_int(y)
            + seq!['_'] + (seq!['_'] + dec_int(w) + seq!['_'] + dec_int(h))))),
{
    assert(monitor_label(x, y, w, h) =~= label_prefix() + ((dec_int(x) + seq!['_'] + (dec_int(y)
        + seq!['_'] + (seq!['_'] + dec_int(w) + seq!['_'] + dec_int(h))))));
}

/// Identity is injective over origins: monitors whose origins differ get
/// different labels, whatever their sizes and scale factors. (Monitors that
/// share an origin collide by design — the dedup rule rests on that.)
pub proof fn lemma_identity_injective_over_origin(m1: MonitorInfo, m2: MonitorInfo)
    requires
        m1.x != m2.x || m1.y != m2.y,
    ensures
        identity_spec(Some(m1)) != identity_spec(Some(m2)),
{
    let x1 = m1.x as int;
    let y1 = m1.y as int;
    let x2 = m2.x as int;
    let y2 = m2.y as int;
    let r1 = dec_int(x1) + seq!['_'] + (dec_int(y1) + seq!['_'] + (seq!['_'] + dec_int(
        m1.width as int,
    ) + seq!['_'] + dec_int(m1.height as int)));
    let r2 = dec_int(x2) + seq!['_'] + (dec_int(y2) + seq!['_'] + (seq!['_'] + dec_int(
        m2.width as int,
    ) + seq!['_'] + dec_int(m2.height as int)));
    lemma_label_shape(x1, y1, m1.width as int, m1.height as int);
    lemma_label_shape(x2, y2, m2.width as int, m2.height as int);
    lemma_dec_int_chars(x1);
    lemma_dec_int_chars(x2);
    lemma_dec_int_chars(y1);
    lemma_dec_int_chars(y2);
    if identity_spec(Some(m1)) == identity_spec(Some(m2)) {
        let p = label_prefix();
        assert(p + r1 == p + r2);
        assert((p + r1).len() == p.len() + r1.len());
        assert((p + r2).len() == p.len() + r2.len());
        assert(r1.len() == r2.len());
        assert(r1 =~= r2) by {
            assert forall|i: int| 0 <= i < r1.len() implies r1[i] == r2[i] by {
                assert((p + r1)[p.len() + i] == r1[i]);
                assert((p + r2)[p.len() + i] == r2[i]);
            }
        }
        lemma_sep_token_unique(
            dec_int(x1),
            dec_int(y1) + seq!['_'] + (seq!['_'] + dec_int(m1.width as int) + seq!['_'] + dec_int(
                m1.height as int,
            )),
            dec_int(x2),
            dec_int(y2) + seq!['_'] + (seq!['_'] + dec_int(m2.width as int) + seq!['_'] + dec_int(
                m2.height as int,
            )),
        );
        lemma_dec_int_injective(x1, x2);
        lemma_sep_token_unique(
            dec_int(y1),
            seq!['_'] + dec_int(m1.width as int) + seq!['_'] + dec_int(m1.height as int),
            dec_int(y2),
            seq!['_'] + dec_int(m2.width as int) + seq!['_'] + dec_int(m2.height as int),
        );
        lemma_dec_int_injective(y1, y2);
        assert(false);
    }
}

/// The main label never collides with a monitor label: right after the shared
/// prefix, a monitor label carries a digit or a sign, the main label an `'m'`.
pub proof fn lemma_main_label_distinct(x: int, y: int, w: int, h: int)
    ensures
        monitor_label(x, y, w, h) != main_label(),
{
    reveal_strlit("wallpaper__main");
    reveal_strlit("wallpaper__");
    lemma_dec_int_chars(x);
    let p = label_prefix();
    let r = dec_int(x) + seq!['_'] + (dec_int(y) + seq!['_'] + (seq!['_'] + dec_int(w) + seq!['_']
        + dec_int(h)));
    lemma_label_shape(x, y, w, h);
    if monitor_label(x, y, w, h) == main_label() {
        assert((p + r)[p.len() as int] == r[0]);
        assert(r[0] == dec_int(x)[0]);
        assert(main_label()[11] == 'm');
        assert(false);
    }
}

} // verus!
