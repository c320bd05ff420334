//! The persisted configuration document: theme, font size, tab size,
//! auto-save and line-number settings, written as a small key-value text
//! (one `key = value` line per field, in a fixed order, the theme
//! quoted). Rendering and parsing are inverse to one another, so a saved
//! configuration loads back field for field.

use vstd::prelude::*;

use crate::text::{dec_digits, dec_string, digit_char};

verus! {

/// The mathematical value of a configuration.
pub ghost struct ConfigModel {
    pub theme: Seq<char>,
    pub font_size: nat,
    pub tab_size: nat,
    pub auto_save: bool,
    pub line_numbers: bool,
}

/// The defaults a fresh or unreadable configuration falls back to.
pub open spec fn spec_default_config() -> ConfigModel {
    ConfigModel { theme: "dark"@, font_size: 14, tab_size: 4, auto_save: false, line_numbers: true }
}

/// The editor's persisted settings.
#[derive(Clone)]
pub struct Config {
    pub theme: String,
    pub font_size: u32,
    pub tab_size: u32,
    pub auto_save: bool,
    pub line_numbers: bool,
}

impl Config {
    /// The mathematical value of this configuration.
    pub open spec fn model(&self) -> ConfigModel {
        ConfigModel {
            theme: self.theme@,
            font_size: self.font_size as nat,
            tab_size: self.tab_size as nat,
            auto_save: self.auto_save,
            line_numbers: self.line_numbers,
        }
    }
}

/// The text standing for a boolean setting.
pub open spec fn bool_text(b: bool) -> Seq<char> {
    if b {
        "true"@
    } else {
        "false"@
    }
}

/// The theme as it stands between the quotes: every double quote and
/// backslash in it is preceded by a backslash, so any theme survives the
/// document unharmed.
pub open spec fn esc(s: Seq<char>) -> Seq<char>
    decreases s.len(),
{
    if s.len() == 0 {
        Seq::empty()
    } else if s[0] == '"' || s[0] == '\\' {
        seq!['\\', s[0]] + esc(s.drop_first())
    } else {
        seq![s[0]] + esc(s.drop_first())
    }
}

/// The canonical document for a configuration: five `key = value` lines
/// in fixed order, the theme quoted with its quotes and backslashes
/// escaped, each line ended by a newline.
pub open spec fn spec_render(m: ConfigModel) -> Seq<char> {
    "theme = \""@ + esc(m.theme) + "\"\nfont_size = "@ + dec_digits(m.font_size) + "\ntab_size = "@
        + dec_digits(m.tab_size) + "\nauto_save = "@ + bool_text(m.auto_save)
        + "\nline_numbers = "@ + bool_text(m.line_numbers) + "\n"@
}

/// `c` is a decimal digit.
pub open spec fn is_digit_char(c: char) -> bool {
    48 <= c as int <= 57
}

/// The value of a decimal digit.
pub open spec fn digit_val(c: char) -> nat
    recommends
        is_digit_char(c),
{
    (c as nat - 48) as nat
}

/// The number written by a digit sequence, leading zeros allowed.
pub open spec fn digits_val(d: Seq<char>) -> nat
    decreases d.len(),
{
    if d.len() == 0 {
        0
    } else {
        digits_val(d.drop_last()) * 10 + digit_val(d.last())
    }
}

/// Splits `s` into its maximal leading digit run and the rest.
pub open spec fn scan_digits(s: Seq<char>) -> (Seq<char>, Seq<char>)
    decreases s.len(),
{
    if s.len() == 0 || !is_digit_char(s[0]) {
        (Seq::empty(), s)
    } else {
        let (d, r) = scan_digits(s.drop_first());
        (seq![s[0]] + d, r)
    }
}

/// Consumes `lit` from the front of `s`, if it stands there.
pub open spec fn take_lit(s: Seq<char>, lit: Seq<char>) -> Option<Seq<char>> {
    if lit.len() <= s.len() && s.subrange(0, lit.len() as int) == lit {
        Some(s.skip(lit.len() as int))
    } else {
        None
    }
}

/// Reads the theme up to its closing quote, undoing the escapes: a
/// backslash must be followed by a quote or another backslash, and the
/// first unescaped quote closes the theme. Fails on a stray backslash or
/// when no quote closes the theme.
pub open spec fn scan_theme(s: Seq<char>) -> Option<(Seq<char>, Seq<char>)>
    decreases s.len(),
{
    if s.len() == 0 {
        None
    } else if s[0] == '"' {
        Some((Seq::empty(), s.drop_first()))
    } else if s[0] == '\\' {
        if s.len() >= 2 && (s[1] == '"' || s[1] == '\\') {
            match scan_theme(s.skip(2)) {
                Some(p) => Some((seq![s[1]] + p.0, p.1)),
                None => None,
            }
        } else {
            None
        }
    } else {
        match scan_theme(s.drop_first()) {
            Some(p) => Some((seq![s[0]] + p.0, p.1)),
            None => None,
        }
    }
}

/// Reads a boolean word from the front of `s`.
pub open spec fn take_bool(s: Seq<char>) -> Option<(bool, Seq<char>)> {
    match take_lit(s, "true"@) {
        Some(r) => Some((true, r)),
        None => match take_lit(s, "false"@) {
            Some(r) => Some((false, r)),
            None => None,
        },
    }
}

/// Reads a number from the front of `s`: at least one digit, value at
/// most `u32::MAX`.
pub open spec fn take_number(s: Seq<char>) -> Option<(nat, Seq<char>)> {
    let (d, r) = scan_digits(s);
    if d.len() == 0 || digits_val(d) > u32::MAX {
        None
    } else {
        Some((digits_val(d), r))
    }
}

/// Parses the canonical configuration document; any other text is
/// rejected, and a rejected document falls back to the defaults at load
/// time.
pub open spec fn spec_parse(s: Seq<char>) -> Option<ConfigModel> {
    match take_lit(s, "theme = \""@) {
        None => None,
        Some(s1) => match scan_theme(s1) {
            None => None,
            Some(p1) => match take_lit(p1.1, "\nfont_size = "@) {
                None => None,
                Some(s2) => match take_number(s2) {
                    None => None,
                    Some(p2) => match take_lit(p2.1, "\ntab_size = "@) {
                        None => None,
                        Some(s3) => match take_number(s3) {
                            None => None,
                            Some(p3) => match take_lit(p3.1, "\nauto_save = "@) {
                                None => None,
                                Some(s4) => match take_bool(s4) {
                                    None => None,
                                    Some(p4) => match take_lit(p4.1, "\nline_numbers = "@) {
                                        None => None,
                                        Some(s5) => match take_bool(s5) {
                                            None => None,
                                            Some(p5) => match take_lit(p5.1, "\n"@) {
                                                None => None,
                                                Some(s6) => if s6.len() == 0 {
                                                    Some(
                                                        ConfigModel {
                                                            theme: p1.0,
                                                            font_size: p2.0,
                                                            tab_size: p3.0,
                                                            auto_save: p4.0,
                                                            line_numbers: p5.0,
                                                        },
                                                    )
                                                } else {
                                                    None
                                                },
                                            },
                                        },
                                    },
                                },
                            },
                        },
                    },
                },
            },
        },
    }
}

impl Config {
    /// The default configuration.
    pub fn new_default() -> (r: Config)
        ensures
            r.model() == spec_default_config(),
    {
        Config {
            theme: String::from_str("dark"),
            font_size: 14,
            tab_size: 4,
            auto_save: false,
            line_numbers: true,
        }
    }

    /// Writes this configuration as its canonical document.
    pub fn render(&self) -> (r: String)
        ensures
            r@ == spec_render(self.model()),
    {
        let mut r = String::from_str("theme = \"");
        let ts = self.theme.as_str();
        let tn = ts.unicode_len();
        let mut k: usize = 0;
        proof {
            assert(ts@.subrange(0, 0) =~= Seq::<char>::empty());
            assert(r@ =~= "theme = \""@ + esc(ts@.subrange(0, 0)));
        }
        while k < tn
            invariant
                tn == ts@.len(),
                k <= tn,
                r@ == "theme = \""@ + esc(ts@.subrange(0, k as int)),
            decreases tn - k,
        {
            let c = ts.get_char(k);
            if c == '"' {
                r.append("\\\"");
            } else if c == '\\' {
                r.append("\\\\");
            } else {
                r.append(ts.substring_char(k, k + 1));
            }
            proof {
                reveal_strlit("\\\"");
                reveal_strlit("\\\\");
                lemma_esc_append(ts@.subrange(0, k as int), ts@[k as int]);
                assert(ts@.subrange(0, k + 1) =~= ts@.subrange(0, k as int).push(ts@[k as int]));
                assert(r@ =~= "theme = \""@ + esc(ts@.subrange(0, k + 1)));
            }
            k += 1;
        }
        proof {
            assert(ts@.subrange(0, tn as int) =~= ts@);
        }
        r.append("\"\nfont_size = ");
        r.append(dec_string(self.font_size as u64).as_str());
        r.append("\ntab_size = ");
        r.append(dec_string(self.tab_size as u64).as_str());
        r.append("\nauto_save = ");
        r.append(if self.auto_save {
            "true"
        } else {
            "false"
        });
        r.append("\nline_numbers = ");
        r.append(if self.line_numbers {
            "true"
        } else {
            "false"
        });
        r.append("\n");
        proof {
            assert(r@ =~= spec_render(self.model()));
        }
        r
    }
}

/// Every character of a decimal rendering is a digit, and there is at
/// least one.
pub proof fn lemma_dec_digits_digits(n: nat)
    ensures
        dec_digits(n).len() > 0,
        forall|i: int| 0 <= i < dec_digits(n).len() ==> is_digit_char(#[trigger] dec_digits(n)[i]),
    decreases n,
{
    if n < 10 {
    } else {
        lemma_dec_digits_digits(n / 10);
    }
}

/// A digit character reads back as the digit it was made from.
proof fn lemma_digit_char_val(d: nat)
    requires
        d < 10,
    ensures
        is_digit_char(digit_char(d)),
        digit_val(digit_char(d)) == d,
{
}

/// Reading back a decimal rendering yields the number it was made from.
pub proof fn lemma_digits_val_dec(n: nat)
    ensures
        digits_val(dec_digits(n)) == n,
    decreases n,
{
    assert(digits_val(Seq::<char>::empty()) == 0);
    if n < 10 {
        lemma_digit_char_val(n);
        assert(dec_digits(n) =~= seq![digit_char(n)]);
        assert(dec_digits(n).drop_last() =~= Seq::<char>::empty());
        assert(dec_digits(n).last() == digit_char(n));
        assert(digits_val(dec_digits(n)) == digits_val(dec_digits(n).drop_last()) * 10 + digit_val(
            dec_digits(n).last(),
        ));
    } else {
        lemma_digits_val_dec(n / 10);
        lemma_digit_char_val(n % 10);
        assert(dec_digits(n).drop_last() =~= dec_digits(n / 10));
        assert(dec_digits(n).last() == digit_char(n % 10));
        assert(digits_val(dec_digits(n)) == digits_val(dec_digits(n).drop_last()) * 10 + digit_val(
            dec_digits(n).last(),
        ));
    }
}

/// A literal standing at the front of a text is consumed exactly.
pub proof fn lemma_take_lit_prepend(lit: Seq<char>, rest: Seq<char>)
    ensures
        take_lit(lit + rest, lit) == Some(rest),
{
    assert((lit + rest).subrange(0, lit.len() as int) =~= lit);
    assert((lit + rest).skip(lit.len() as int) =~= rest);
}

/// Escaping one more character appends its escaped form.
proof fn lemma_esc_append(a: Seq<char>, c: char)
    ensures
        esc(a.push(c)) == esc(a) + (if c == '"' || c == '\\' {
            seq!['\\', c]
        } else {
            seq![c]
        }),
    decreases a.len(),
{
    let e1 = if c == '"' || c == '\\' {
        seq!['\\', c]
    } else {
        seq![c]
    };
    if a.len() == 0 {
        assert(a =~= Seq::<char>::empty());
        assert(esc(Seq::<char>::empty()) == Seq::<char>::empty());
        assert(a.push(c)[0] == c);
        assert(a.push(c).drop_first() =~= Seq::<char>::empty());
        assert(esc(a.push(c)) =~= esc(a) + e1);
    } else {
        lemma_esc_append(a.drop_first(), c);
        assert(a.push(c)[0] == a[0]);
        assert(a.push(c).drop_first() =~= a.drop_first().push(c));
        let h = if a[0] == '"' || a[0] == '\\' {
            seq!['\\', a[0]]
        } else {
            seq![a[0]]
        };
        assert(esc(a) == h + esc(a.drop_first()));
        assert(esc(a.push(c)) == h + esc(a.drop_first().push(c)));
        assert(esc(a.push(c)) =~= esc(a) + e1);
    }
}

/// Scanning to the closing quote undoes the escaping exactly, whatever
/// the theme holds.
pub proof fn lemma_scan_theme_round(t: Seq<char>, rest: Seq<char>)
    ensures
        scan_theme(esc(t) + seq!['"'] + rest) == Some((t, rest)),
    decreases t.len(),
{
    let s = esc(t) + seq!['"'] + rest;
    if t.len() == 0 {
        assert(s[0] == '"');
        assert(s.drop_first() =~= rest);
        assert((scan_theme(s)->0).0 =~= t);
    } else if t[0] == '"' || t[0] == '\\' {
        assert(s[0] == '\\');
        assert(s[1] == t[0]);
        lemma_scan_theme_round(t.drop_first(), rest);
        assert(s.skip(2) =~= esc(t.drop_first()) + seq!['"'] + rest);
        assert(seq![t[0]] + t.drop_first() =~= t);
    } else {
        assert(s[0] == t[0]);
        lemma_scan_theme_round(t.drop_first(), rest);
        assert(s.drop_first() =~= esc(t.drop_first()) + seq!['"'] + rest);
        assert(seq![t[0]] + t.drop_first() =~= t);
    }
}

/// Scanning digits consumes a leading digit run up to the first
/// non-digit exactly.
pub proof fn lemma_scan_digits_prepend(d: Seq<char>, rest: Seq<char>)
    requires
        forall|i: int| 0 <= i < d.len() ==> is_digit_char(#[trigger] d[i]),
        rest.len() == 0 || !is_digit_char(rest[0]),
    ensures
        scan_digits(d + rest) == (d, rest),
    decreases d.len(),
{
    let s = d + rest;
    if d.len() == 0 {
        assert(s =~= rest);
        assert(scan_digits(s).0 =~= d);
    } else {
        assert(s[0] == d[0]);
        lemma_scan_digits_prepend(d.drop_first(), rest);
        assert(s.drop_first() =~= d.drop_first() + rest);
        assert(seq![d[0]] + d.drop_first() =~= d);
    }
}

/// Reading a number written in decimal recovers it, provided what
/// follows does not begin with a digit.
pub proof fn lemma_take_number_prepend(n: nat, rest: Seq<char>)
    requires
        n <= u32::MAX,
        rest.len() == 0 || !is_digit_char(rest[0]),
    ensures
        take_number(dec_digits(n) + rest) == Some((n, rest)),
{
    lemma_dec_digits_digits(n);
    lemma_scan_digits_prepend(dec_digits(n), rest);
    lemma_digits_val_dec(n);
}

/// Reading a boolean word written at the front of a text recovers it.
pub proof fn lemma_take_bool_prepend(b: bool, rest: Seq<char>)
    ensures
        take_bool(bool_text(b) + rest) == Some((b, rest)),
{
    reveal_strlit("true");
    reveal_strlit("false");
    let s = bool_text(b) + rest;
    if b {
        lemma_take_lit_prepend("true"@, rest);
    } else {
        assert(take_lit(s, "true"@) is None) by {
            if take_lit(s, "true"@) is Some {
                assert(s.subrange(0, 4)[0] == "true"@[0]);
                assert(s[0] == 'f');
            }
        }
        lemma_take_lit_prepend("false"@, rest);
    }
}

/// A digit run's prefix never reads as a larger number than the whole
/// run.
proof fn lemma_digits_val_prefix_mono(d: Seq<char>, k: int)
    requires
        0 <= k <= d.len(),
    ensures
        digits_val(d.subrange(0, k)) <= digits_val(d),
    decreases d.len() - k,
{
    if k == d.len() {
        assert(d.subrange(0, k) =~= d);
    } else {
        lemma_digits_val_prefix_mono(d, k + 1);
        assert(d.subrange(0, k + 1).drop_last() =~= d.subrange(0, k));
        assert(digits_val(d.subrange(0, k + 1)) == digits_val(d.subrange(0, k)) * 10 + digit_val(
            d.subrange(0, k + 1).last(),
        ));
    }
}

/// Config round-trip law: parsing the canonical document written for a
/// configuration yields that configuration back, field for field,
/// whatever the theme holds.
#[verifier::rlimit(100)]
pub proof fn lemma_config_round_trip(m: ConfigModel)
    requires
        m.font_size <= u32::MAX,
        m.tab_size <= u32::MAX,
    ensures
        spec_parse(spec_render(m)) == Some(m),
{
    reveal_strlit("\"\nfont_size = ");
    reveal_strlit("\nfont_size = ");
    reveal_strlit("\ntab_size = ");
    reveal_strlit("\nauto_save = ");
    reveal_strlit("\nline_numbers = ");
    reveal_strlit("\n");

    let tail5 = "\n"@ + Seq::<char>::empty();
    let tail4c = bool_text(m.line_numbers) + tail5;
    let tail4b = "\nline_numbers = "@ + tail4c;
    let tail4 = bool_text(m.auto_save) + tail4b;
    let tail3b = "\nauto_save = "@ + tail4;
    let tail3 = dec_digits(m.tab_size) + tail3b;
    let tail2b = "\ntab_size = "@ + tail3;
    let tail2 = dec_digits(m.font_size) + tail2b;
    let tail1b = "\nfont_size = "@ + tail2;
    let rest1 = esc(m.theme) + seq!['"'] + tail1b;

    assert(spec_render(m) =~= "theme = \""@ + rest1);
    lemma_take_lit_prepend("theme = \""@, rest1);
    assert(take_lit(spec_render(m), "theme = \""@) == Some(rest1));

    lemma_scan_theme_round(m.theme, tail1b);

    lemma_take_lit_prepend("\nfont_size = "@, tail2);
    assert(tail2b[0] == '\n');
    lemma_take_number_prepend(m.font_size, tail2b);

    lemma_take_lit_prepend("\ntab_size = "@, tail3);
    assert(tail3b[0] == '\n');
    lemma_take_number_prepend(m.tab_size, tail3b);

    lemma_take_lit_prepend("\nauto_save = "@, tail4);
    lemma_take_bool_prepend(m.auto_save, tail4b);

    lemma_take_lit_prepend("\nline_numbers = "@, tail4c);
    lemma_take_bool_prepend(m.line_numbers, tail5);

    lemma_take_lit_prepend("\n"@, Seq::<char>::empty());
}

/// The round-trip law at the type: any configuration value parses back
/// from its rendered document, with no proviso, since the numeric
/// fields are bounded by their types.
pub proof fn lemma_config_round_trip_value(c: Config)
    ensures
        spec_parse(spec_render(c.model())) == Some(c.model()),
{
    lemma_config_round_trip(c.model());
}

/// Whether `c` is a decimal digit.
fn is_digit(c: char) -> (r: bool)
    ensures
        r == is_digit_char(c),
{
    let v = c as u32;
    48 <= v && v <= 57
}

/// Consumes `lit` at position `pos` of `s`, handing back the position
/// just past it.
fn expect_lit(s: &str, n: usize, pos: usize, lit: &str) -> (r: Option<usize>)
    requires
        n == s@.len(),
        pos <= n,
    ensures
        take_lit(s@.skip(pos as int), lit@) is Some <==> r is Some,
        r matches Some(p) ==> pos <= p <= n && p == pos + lit@.len() && take_lit(
            s@.skip(pos as int),
            lit@,
        ) == Some(s@.skip(p as int)),
{
    let m = lit.unicode_len();
    if m > n - pos {
        return None;
    }
    let mut k: usize = 0;
    while k < m
        invariant
            n == s@.len(),
            pos <= n,
            m == lit@.len(),
            m <= n - pos,
            k <= m,
            forall|j: int| 0 <= j < k ==> s@[pos + j] == lit@[j],
        decreases m - k,
    {
        if s.get_char(pos + k) != lit.get_char(k) {
            proof {
                if take_lit(s@.skip(pos as int), lit@) is Some {
                    assert(s@.skip(pos as int).subrange(0, m as int)[k as int] == lit@[k as int]);
                    assert(s@.skip(pos as int)[k as int] == s@[pos + k]);
                }
            }
            return None;
        }
        k += 1;
    }
    proof {
        assert(s@.skip(pos as int).subrange(0, m as int) =~= lit@);
        assert(s@.skip(pos as int).skip(m as int) =~= s@.skip((pos + m) as int));
    }
    Some(pos + m)
}

/// Finds the first double quote at or past `pos`.
/// Reads the theme standing at position `pos` of `s` up to its closing
/// quote, undoing the escapes; hands back the theme and the position
/// just past the quote.
fn scan_theme_str(s: &str, n: usize, pos: usize) -> (r: Option<(String, usize)>)
    requires
        n == s@.len(),
        pos <= n,
    ensures
        scan_theme(s@.skip(pos as int)) is Some <==> r is Some,
        r matches Some(v) ==> pos <= v.1 <= n && scan_theme(s@.skip(pos as int)) == Some(
            (v.0@, s@.skip(v.1 as int)),
        ),
{
    let mut out = String::new();
    let mut k: usize = pos;
    while k < n
        invariant
            n == s@.len(),
            pos <= k <= n,
            match scan_theme(s@.skip(k as int)) {
                Option::None => scan_theme(s@.skip(pos as int)) is None,
                Option::Some(p) => scan_theme(s@.skip(pos as int)) == Some((out@ + p.0, p.1)),
            },
        decreases n - k,
    {
        let ghost out0 = out@;
        let c = s.get_char(k);
        if c == '"' {
            proof {
                assert(s@.skip(k as int)[0] == '"');
                assert(s@.skip(k as int).drop_first() =~= s@.skip(k + 1));
                assert(out@ + Seq::<char>::empty() =~= out@);
            }
            return Some((out, k + 1));
        } else if c == '\\' {
            if k + 1 < n {
                let c2 = s.get_char(k + 1);
                if c2 == '"' || c2 == '\\' {
                    out.append(s.substring_char(k + 1, k + 2));
                    proof {
                        let t = s@.skip(k as int);
                        assert(t[0] == '\\');
                        assert(t[1] == c2);
                        assert(t.skip(2) =~= s@.skip(k + 2));
                        assert(out@ =~= out0 + seq![c2]);
                        match scan_theme(s@.skip(k + 2)) {
                            Option::Some(p) => {
                                assert(scan_theme(t) == Some((seq![c2] + p.0, p.1)));
                                assert(out0 + (seq![c2] + p.0) =~= out@ + p.0);
                            },
                            Option::None => {},
                        }
                    }
                    k += 2;
                } else {
                    proof {
                        let t = s@.skip(k as int);
                        assert(t[0] == '\\');
                        assert(t[1] == c2);
                        assert(scan_theme(t) is None);
                    }
                    return None;
                }
            } else {
                proof {
                    let t = s@.skip(k as int);
                    assert(t.len() == 1);
                    assert(t[0] == '\\');
                    assert(scan_theme(t) is None);
                }
                return None;
            }
        } else {
            out.append(s.substring_char(k, k + 1));
            proof {
                let t = s@.skip(k as int);
                assert(t[0] == c);
                assert(t.drop_first() =~= s@.skip(k + 1));
                assert(out@ =~= out0 + seq![c]);
                match scan_theme(s@.skip(k + 1)) {
                    Option::Some(p) => {
                        assert(scan_theme(t) == Some((seq![c] + p.0, p.1)));
                        assert(out0 + (seq![c] + p.0) =~= out@ + p.0);
                    },
                    Option::None => {},
                }
            }
            k += 1;
        }
    }
    proof {
        assert(s@.skip(n as int).len() == 0);
    }
    None
}

/// Finds the end of the digit run starting at `pos`.
fn digit_run_end(s: &str, n: usize, pos: usize) -> (e: usize)
    requires
        n == s@.len(),
        pos <= n,
    ensures
        pos <= e <= n,
        forall|i: int| pos <= i < e ==> is_digit_char(s@[i]),
        e == n || !is_digit_char(s@[e as int]),
{
    let mut k: usize = pos;
    while k < n
        invariant
            n == s@.len(),
            pos <= k <= n,
            forall|i: int| pos <= i < k ==> is_digit_char(s@[i]),
        decreases n - k,
    {
        if !is_digit(s.get_char(k)) {
            return k;
        }
        k += 1;
    }
    n
}

/// Reads the number standing at position `pos` of `s`: at least one
/// digit, value at most `u32::MAX`.
fn parse_number(s: &str, n: usize, pos: usize) -> (r: Option<(u32, usize)>)
    requires
        n == s@.len(),
        pos <= n,
    ensures
        take_number(s@.skip(pos as int)) is Some <==> r is Some,
        r matches Some(v) ==> pos <= v.1 <= n && take_number(s@.skip(pos as int)) == Some(
            (v.0 as nat, s@.skip(v.1 as int)),
        ),
{
    let e = digit_run_end(s, n, pos);
    let ghost d = s@.subrange(pos as int, e as int);
    proof {
        assert(s@.skip(pos as int) =~= d + s@.skip(e as int));
        lemma_scan_digits_prepend(d, s@.skip(e as int));
        assert(scan_digits(s@.skip(pos as int)) == (d, s@.skip(e as int)));
    }
    if e == pos {
        proof {
            assert(d.len() == 0);
        }
        return None;
    }
    let mut acc: u64 = 0;
    let mut k: usize = pos;
    while k < e
        invariant
            n == s@.len(),
            pos <= k <= e <= n,
            d == s@.subrange(pos as int, e as int),
            d.len() > 0,
            scan_digits(s@.skip(pos as int)) == (d, s@.skip(e as int)),
            forall|i: int| pos <= i < e ==> is_digit_char(s@[i]),
            acc <= u32::MAX,
            acc as nat == digits_val(s@.subrange(pos as int, k as int)),
        decreases e - k,
    {
        let c = s.get_char(k);
        let dv = (c as u32) - 48;
        let next: u64 = acc * 10 + (dv as u64);
        proof {
            assert(s@.subrange(pos as int, k + 1).drop_last() =~= s@.subrange(
                pos as int,
                k as int,
            ));
            assert(s@.subrange(pos as int, k + 1).last() == s@[k as int]);
            assert(digits_val(s@.subrange(pos as int, k + 1)) == digits_val(
                s@.subrange(pos as int, k as int),
            ) * 10 + digit_val(s@[k as int]));
        }
        if next > u32::MAX as u64 {
            proof {
                assert(d.subrange(0, k + 1 - pos) =~= s@.subrange(pos as int, k + 1));
                lemma_digits_val_prefix_mono(d, k + 1 - pos);
            }
            return None;
        }
        acc = next;
        k += 1;
    }
    proof {
        assert(s@.subrange(pos as int, e as int) == d);
    }
    Some((acc as u32, e))
}

/// Reads the boolean word standing at position `pos` of `s`.
fn parse_bool(s: &str, n: usize, pos: usize) -> (r: Option<(bool, usize)>)
    requires
        n == s@.len(),
        pos <= n,
    ensures
        take_bool(s@.skip(pos as int)) is Some <==> r is Some,
        r matches Some(v) ==> pos <= v.1 <= n && take_bool(s@.skip(pos as int)) == Some(
            (v.0, s@.skip(v.1 as int)),
        ),
{
    match expect_lit(s, n, pos, "true") {
        Some(p) => Some((true, p)),
        None => match expect_lit(s, n, pos, "false") {
            Some(p) => Some((false, p)),
            None => None,
        },
    }
}

impl Config {
    /// Reads a configuration back from its canonical document; any other
    /// text is rejected, for the caller to fall back to the defaults.
    #[verifier::rlimit(100)]
    pub fn parse(s: &str) -> (r: Option<Config>)
        ensures
            spec_parse(s@) is Some <==> r is Some,
            r matches Some(c) ==> spec_parse(s@) == Some(c.model()),
    {
        let n = s.unicode_len();
        proof {
            assert(s@.skip(0) =~= s@);
        }
        let p0 = match expect_lit(s, n, 0, "theme = \"") {
            Some(p) => p,
            None => {
                return None;
            },
        };
        let (theme, p1) = match scan_theme_str(s, n, p0) {
            Some(v) => v,
            None => {
                return None;
            },
        };
        let p2 = match expect_lit(s, n, p1, "\nfont_size = ") {
            Some(p) => p,
            None => {
                return None;
            },
        };
        let (font_size, p3) = match parse_number(s, n, p2) {
            Some(v) => v,
            None => {
                return None;
            },
        };
        let p4 = match expect_lit(s, n, p3, "\ntab_size = ") {
            Some(p) => p,
            None => {
                return None;
            },
        };
        let (tab_size, p5) = match parse_number(s, n, p4) {
            Some(v) => v,
            None => {
                return None;
            },
        };
        let p6 = match expect_lit(s, n, p5, "\nauto_save = ") {
            Some(p) => p,
            None => {
                return None;
            },
        };
        let (auto_save, p7) = match parse_bool(s, n, p6) {
            Some(v) => v,
            None => {
                return None;
            },
        };
        let p8 = match expect_lit(s, n, p7, "\nline_numbers = ") {
            Some(p) => p,
            None => {
                return None;
            },
        };
        let (line_numbers, p9) = match parse_bool(s, n, p8) {
            Some(v) => v,
            None => {
                return None;
            },
        };
        let p10 = match expect_lit(s, n, p9, "\n") {
            Some(p) => p,
            None => {
                return None;
            },
        };
        if p10 != n {
            return None;
        }
        Some(Config { theme, font_size, tab_size, auto_save, line_numbers })
    }

    /// Reads a configuration from a document, substituting the defaults
    /// when the text is not a canonical configuration document: a
    /// missing or corrupt file never fails startup.
    pub fn from_text(text: &str) -> (r: Config)
        ensures
            spec_parse(text@) matches Some(m) ==> r.model() == m,
            spec_parse(text@) is None ==> r.model() == spec_default_config(),
    {
        match Config::parse(text) {
            Some(config) => config,
            None => Config::new_default(),
        }
    }
}

impl Default for Config {
    /// The default configuration.
    fn default() -> (r: Config)
        ensures
            r.model() == spec_default_config(),
    {
        Config::new_default()
    }
}

} // verus!
