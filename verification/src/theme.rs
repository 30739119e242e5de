//! Terminal styling for the report: ANSI colour codes around text when
//! colour is on, the plain text otherwise, and the risk tier's palette.
use vstd::prelude::*;

use crate::graph::RiskTier;
use crate::text::{char_count, chars_of, concat, concat3, decimal, owned, repeat, repeat_char, string_of, usize_to_string};

verus! {

/// Width of the report's section rules.
pub const LAYOUT_WIDTH: usize = 60;

/// `text` in the ANSI style `code` when `color` is on.
pub open spec fn paint_spec(color: bool, text: Seq<char>, code: Seq<char>) -> Seq<char> {
    if color {
        "\x1b["@ + code + "m"@ + text + "\x1b[0m"@
    } else {
        text
    }
}

/// A tier's label, foreground code and pill code: a green to red gradient.
pub open spec fn palette_spec(tier: RiskTier) -> (Seq<char>, Seq<char>, Seq<char>) {
    match tier {
        RiskTier::Minor => ("MINOR"@, "38;5;42"@, "1;30;48;5;42"@),
        RiskTier::Moderate => ("MODERATE"@, "38;5;220"@, "1;30;48;5;220"@),
        RiskTier::Risky => ("RISKY"@, "38;5;208"@, "1;30;48;5;208"@),
        RiskTier::High => ("HIGH"@, "38;5;196"@, "1;97;48;5;196"@),
    }
}

pub fn tier_palette(tier: RiskTier) -> (r: (&'static str, &'static str, &'static str))
    ensures
        (r.0@, r.1@, r.2@) == palette_spec(tier),
{
    match tier {
        RiskTier::Minor => ("MINOR", "38;5;42", "1;30;48;5;42"),
        RiskTier::Moderate => ("MODERATE", "38;5;220", "1;30;48;5;220"),
        RiskTier::Risky => ("RISKY", "38;5;208", "1;30;48;5;208"),
        RiskTier::High => ("HIGH", "38;5;196", "1;97;48;5;196"),
    }
}

/// `text` right-aligned in a field of `width` characters.
pub open spec fn pad_left_spec(text: Seq<char>, width: nat) -> Seq<char> {
    if text.len() < width {
        repeat_char(' ', (width - text.len()) as nat) + text
    } else {
        text
    }
}

/// `text` centred in a field of `width` characters, the odd space on the right.
pub open spec fn center_spec(text: Seq<char>, width: nat) -> Seq<char> {
    if text.len() < width {
        let pad = (width - text.len()) as nat;
        repeat_char(' ', pad / 2) + text + repeat_char(' ', (pad - pad / 2) as nat)
    } else {
        text
    }
}

pub fn pad_left(text: &str, width: usize) -> (r: String)
    ensures
        r@ == pad_left_spec(text@, width as nat),
{
    let n = char_count(text);
    if n < width {
        concat(repeat(' ', width - n).as_str(), text)
    } else {
        owned(text)
    }
}

pub fn center(text: &str, width: usize) -> (r: String)
    ensures
        r@ == center_spec(text@, width as nat),
{
    let n = char_count(text);
    if n < width {
        let pad = width - n;
        concat3(repeat(' ', pad / 2).as_str(), text, repeat(' ', pad - pad / 2).as_str())
    } else {
        owned(text)
    }
}

// ---------------------------------------------------------------------------
// What std and figlet compute for the theme
// ---------------------------------------------------------------------------

/// What `str::to_uppercase` gives for a string.
pub uninterp spec fn spec_to_uppercase(s: Seq<char>) -> Seq<char>;

pub open spec fn ascii_upper(c: char) -> char {
    if 'a' <= c && c <= 'z' {
        ((c as u32) - 32) as char
    } else {
        c
    }
}

/// Calls `str::to_uppercase`. The result is named; std documents that it
/// maps each character to its Unicode uppercase, which for an ASCII-only
/// string is `a`..`z` to `A`..`Z` and every other character unchanged, and
/// that much is stated.
#[verifier::external_body]
fn to_uppercase(s: &str) -> (r: String)
    ensures
        r@ == spec_to_uppercase(s@),
        (forall|i: int| 0 <= i < s@.len() ==> (#[trigger] s@[i] as u32) < 128) ==> r@ == s@.map_values(|c: char| ascii_upper(c)),
{
    s.to_uppercase()
}

/// Whether a character has the Unicode White_Space property, which is what
/// `char::is_whitespace` tests.
pub open spec fn unicode_white_space(c: char) -> bool {
    let u = c as u32;
    (0x9 <= u && u <= 0xD) || u == 0x20 || u == 0x85 || u == 0xA0 || u == 0x1680 || (0x2000 <= u && u <= 0x200A)
        || u == 0x2028 || u == 0x2029 || u == 0x202F || u == 0x205F || u == 0x3000
}

/// Whether `c` is Unicode white space.
pub(crate) fn is_whitespace(c: char) -> (r: bool)
    ensures
        r == unicode_white_space(c),
{
    let u = c as u32;
    (0x9 <= u && u <= 0xD) || u == 0x20 || u == 0x85 || u == 0xA0 || u == 0x1680 || (0x2000 <= u && u <= 0x200A)
        || u == 0x2028 || u == 0x2029 || u == 0x202F || u == 0x205F || u == 0x3000
}

/// The text figlet's bundled `slant` font renders for a message.
pub uninterp spec fn spec_slant_render(text: Seq<char>) -> Option<Seq<char>>;

/// Renders `text` with `figlet_rs::FIGlet::slant` and `FIGlet::convert`,
/// turned into its text by `Display`. The font is bundled with the crate, so
/// the result depends on `text` alone and is named; what it looks like is
/// figlet's and is not stated. `None` when the font cannot be loaded or the
/// text not converted.
#[verifier::external_body]
fn slant_render(text: &str) -> (r: Option<String>)
    ensures
        crate::collections::opt_str(r) == spec_slant_render(text@),
{
    figlet_rs::FIGlet::slant().ok().and_then(|font| font.convert(text).map(|figure| figure.to_string()))
}

// ---------------------------------------------------------------------------
// Splitting the wordmark into rows
// ---------------------------------------------------------------------------

/// `s` without its trailing whitespace.
pub open spec fn trim_end_spec(s: Seq<char>) -> Seq<char>
    decreases s.len(),
{
    if s.len() > 0 && unicode_white_space(s.last()) {
        trim_end_spec(s.drop_last())
    } else {
        s
    }
}

/// The lines of `s`: split at each `\n`, a trailing `\r` dropped from each,
/// and no final empty line after a trailing `\n`.
pub open spec fn lines_spec(s: Seq<char>) -> Seq<Seq<char>> {
    let parts = split_newlines(s);
    let kept = if parts.len() > 0 && parts.last().len() == 0 { parts.drop_last() } else { parts };
    kept.map_values(|l: Seq<char>| if l.len() > 0 && l.last() == '\r' { l.drop_last() } else { l })
}

/// `s` split at every `\n` (always at least one part).
pub open spec fn split_newlines(s: Seq<char>) -> Seq<Seq<char>>
    decreases s.len(),
{
    if s.len() == 0 {
        seq![Seq::empty()]
    } else {
        let rest = split_newlines(s.drop_last());
        if s.last() == '\n' {
            rest.push(Seq::empty())
        } else {
            rest.update(rest.len() - 1, rest.last().push(s.last()))
        }
    }
}

proof fn lemma_split_nonempty(s: Seq<char>)
    ensures
        split_newlines(s).len() >= 1,
    decreases s.len(),
{
    if s.len() > 0 {
        lemma_split_nonempty(s.drop_last());
    }
}

pub(crate) fn trim_end(s: &Vec<char>) -> (r: Vec<char>)
    ensures
        r@ == trim_end_spec(s@),
{
    let mut n = s.len();
    let mut out = s.clone();
    proof {
        assert(out@ == s@.take(n as int));
        assert(s@.take(n as int) =~= s@);
    }
    while n > 0 && is_whitespace(s[n - 1])
        invariant
            n <= s@.len(),
            out@ == s@.take(n as int),
            trim_end_spec(s@) == trim_end_spec(s@.take(n as int)),
        decreases n,
    {
        proof {
            assert(s@.take(n as int).drop_last() =~= s@.take(n - 1));
        }
        out.pop();
        n = n - 1;
        proof {
            assert(out@ =~= s@.take(n as int));
        }
    }
    out
}

/// The rows of a rendered wordmark: its lines with trailing whitespace
/// removed, and without the empty rows at its end.
pub open spec fn wordmark_rows(s: Seq<char>) -> Seq<Seq<char>> {
    drop_empty_tail(lines_spec(s).map_values(|l: Seq<char>| trim_end_spec(l)))
}

pub open spec fn drop_empty_tail(rows: Seq<Seq<char>>) -> Seq<Seq<char>>
    decreases rows.len(),
{
    if rows.len() > 0 && rows.last().len() == 0 {
        drop_empty_tail(rows.drop_last())
    } else {
        rows
    }
}

fn split_rows(s: &str) -> (r: Vec<Vec<char>>)
    ensures
        r@.map_values(|l: Vec<char>| l@) == wordmark_rows(s@),
{
    let cs = chars_of(s);
    // split at '\n'
    let mut parts: Vec<Vec<char>> = vec![Vec::new()];
    let mut i: usize = 0;
    proof {
        assert(cs@.take(0) =~= Seq::<char>::empty());
        assert(parts@.map_values(|l: Vec<char>| l@) =~= split_newlines(cs@.take(0)));
    }
    while i < cs.len()
        invariant
            i <= cs@.len(),
            cs@ == s@,
            parts@.len() >= 1,
            parts@.map_values(|l: Vec<char>| l@) == split_newlines(cs@.take(i as int)),
        decreases cs.len() - i,
    {
        let ghost before = parts@.map_values(|l: Vec<char>| l@);
        proof {
            assert(cs@.take(i + 1).drop_last() =~= cs@.take(i as int));
        }
        if cs[i] == '\n' {
            parts.push(Vec::new());
            proof {
                assert(parts@.map_values(|l: Vec<char>| l@) =~= before.push(Seq::<char>::empty()));
            }
        } else {
            let last = parts.len() - 1;
            let mut cur = parts[last].clone();
            cur.push(cs[i]);
            parts.set(last, cur);
            proof {
                assert(parts@.map_values(|l: Vec<char>| l@) =~= before.update(before.len() - 1, before.last().push(cs@[i as int])));
            }
        }
        i = i + 1;
    }
    proof {
        assert(cs@.take(cs@.len() as int) =~= cs@);
    }
    let ghost split = parts@.map_values(|l: Vec<char>| l@);
    // the final empty part after a trailing newline is no line
    let total = parts.len();
    let count = if parts[total - 1].len() == 0 { total - 1 } else { total };
    let ghost kept = if split.len() > 0 && split.last().len() == 0 { split.drop_last() } else { split };
    let mut rows: Vec<Vec<char>> = Vec::new();
    let mut k: usize = 0;
    while k < count
        invariant
            k <= count,
            count == kept.len(),
            kept.len() <= parts@.len(),
            split == parts@.map_values(|l: Vec<char>| l@),
            kept == (if split.len() > 0 && split.last().len() == 0 { split.drop_last() } else { split }),
            rows@.map_values(|l: Vec<char>| l@) == kept.take(k as int).map_values(
                |l: Seq<char>| trim_end_spec(if l.len() > 0 && l.last() == '\r' { l.drop_last() } else { l }),
            ),
        decreases count - k,
    {
        let mut line = parts[k].clone();
        let n = line.len();
        if n > 0 && line[n - 1] == '\r' {
            line.pop();
        }
        let ghost before = rows@.map_values(|l: Vec<char>| l@);
        let trimmed = trim_end(&line);
        rows.push(trimmed);
        proof {
            assert(kept[k as int] == parts@[k as int]@);
            assert(kept.take(k + 1) =~= kept.take(k as int).push(kept[k as int]));
            assert(rows@.map_values(|l: Vec<char>| l@) =~= before.push(trimmed@));
        }
        k = k + 1;
    }
    proof {
        assert(kept.take(count as int) =~= kept);
        assert(lines_spec(s@).map_values(|l: Seq<char>| trim_end_spec(l)) =~= kept.map_values(
            |l: Seq<char>| trim_end_spec(if l.len() > 0 && l.last() == '\r' { l.drop_last() } else { l }),
        ));
    }
    while rows.len() > 0 && rows[rows.len() - 1].len() == 0
        invariant
            drop_empty_tail(rows@.map_values(|l: Vec<char>| l@)) == wordmark_rows(s@),
        decreases rows.len(),
    {
        let ghost before = rows@.map_values(|l: Vec<char>| l@);
        rows.pop();
        proof {
            assert(rows@.map_values(|l: Vec<char>| l@) =~= before.drop_last());
        }
    }
    rows
}

// ---------------------------------------------------------------------------
// The theme
// ---------------------------------------------------------------------------

/// The wordmark's vertical colour gradient, brightest at the top.
pub open spec fn gradient() -> Seq<Seq<char>> {
    seq!["38;5;226"@, "38;5;220"@, "38;5;214"@, "38;5;208"@, "38;5;202"@, "38;5;196"@]
}

/// The starburst beside the wordmark.
pub open spec fn burst() -> Seq<Seq<char>> {
    seq!["\\ ' /"@, ".\\|/."@, "-=*=-"@, "'/|\\'"@, "/ . \\"@]
}

/// One banner row: the burst line for row `i`, centred, and the row in the
/// gradient colour for its height.
pub open spec fn banner_row(color: bool, row: Seq<char>, i: int, height: int, pad_top: int) -> Seq<char> {
    let burst_line = if pad_top <= i && i - pad_top < 5 { burst()[i - pad_top] } else { ""@ };
    " "@ + paint_spec(color, center_spec(burst_line, 5), "1;38;5;226"@) + " "@ + paint_spec(
        color,
        row,
        "1;"@ + gradient()[(i * 6) / height],
    )
}

/// The banner for a rendered wordmark (`None`: the plain fallback).
pub open spec fn banner_spec(color: bool, rendered: Option<Seq<char>>) -> Seq<Seq<char>> {
    match rendered {
        None => seq![
            "  "@ + paint_spec(color, "-=*=-"@, "1;38;5;226"@) + "  "@ + paint_spec(color, "BLAST"@, "1;38;5;214"@) + " "@
                + paint_spec(color, "RADIUS"@, "1;38;5;202"@),
        ],
        Some(text) => {
            let rows = wordmark_rows(text);
            let height = if rows.len() > 1 { rows.len() as int } else { 1 };
            let pad_top = (if height > 5 { height - 5 } else { 0 }) / 2;
            Seq::new(rows.len(), |i: int| banner_row(color, rows[i], i, height, pad_top))
        },
    }
}

/// The report's styling: whether colour is on.
pub struct Theme {
    pub color: bool,
}

impl Theme {
    pub fn new(color: bool) -> (r: Theme)
        ensures
            r.color == color,
    {
        Theme { color }
    }

    pub fn paint(&self, text: &str, code: &str) -> (r: String)
        ensures
            r@ == paint_spec(self.color, text@, code@),
    {
        if self.color {
            concat(concat3("\x1b[", code, "m").as_str(), concat(text, "\x1b[0m").as_str())
        } else {
            owned(text)
        }
    }

    pub fn key(&self, text: &str) -> (r: String)
        ensures
            r@ == paint_spec(self.color, pad_left_spec(text@, 12), "2;37"@),
    {
        self.paint(pad_left(text, 12).as_str(), "2;37")
    }

    /// The big wordmark in the slant font, each row tinted down a warm
    /// gradient and led by a starburst centred on the word; a one-line
    /// wordmark when the font cannot be used.
    pub fn banner(&self) -> (r: Vec<String>)
        ensures
            crate::collections::str_views(r@) == banner_spec(self.color, spec_slant_render("BLAST RADIUS"@)),
    {
        let rendered = slant_render("BLAST RADIUS");
        match rendered {
            None => {
                let b = self.paint("-=*=-", "1;38;5;226");
                let blast = self.paint("BLAST", "1;38;5;214");
                let radius = self.paint("RADIUS", "1;38;5;202");
                let line = concat(concat3("  ", b.as_str(), "  ").as_str(), concat3(blast.as_str(), " ", radius.as_str()).as_str());
                proof {
                    assert(line@ =~= banner_spec(self.color, None)[0]);
                }
                let out = vec![line];
                proof {
                    assert(crate::collections::str_views(out@) =~= banner_spec(self.color, None));
                }
                out
            },
            Some(text) => {
                let rows = split_rows(text.as_str());
                let ghost rv = rows@.map_values(|l: Vec<char>| l@);
                let height: usize = if rows.len() > 1 { rows.len() } else { 1 };
                let pad_top: usize = (if height > 5 { height - 5 } else { 0 }) / 2;
                let gradient_codes = vec!["38;5;226", "38;5;220", "38;5;214", "38;5;208", "38;5;202", "38;5;196"];
                let bursts = vec!["\\ ' /", ".\\|/.", "-=*=-", "'/|\\'", "/ . \\"];
                proof {
                    assert(gradient_codes@.map_values(|c: &str| c@) =~= gradient());
                    assert(bursts@.map_values(|c: &str| c@) =~= burst());
                    assert(bursts@.len() == 5);
                    assert(gradient_codes@.len() == 6);
                }
                let mut out: Vec<String> = Vec::new();
                let mut i: usize = 0;
                while i < rows.len()
                    invariant
                        i <= rows@.len(),
                        rv == rows@.map_values(|l: Vec<char>| l@),
                        rv == wordmark_rows(text@),
                        height == (if rows@.len() > 1 { rows@.len() as int } else { 1 }),
                        pad_top == (if height > 5 { height - 5 } else { 0 }) / 2,
                        gradient_codes@.map_values(|c: &str| c@) == gradient(),
                        bursts@.map_values(|c: &str| c@) == burst(),
                        bursts@.len() == 5,
                        gradient_codes@.len() == 6,
                        crate::collections::str_views(out@) == Seq::new(i as nat, |j: int| banner_row(self.color, rv[j], j, height as int, pad_top as int)),
                    decreases rows.len() - i,
                {
                    let burst_line: &str = if pad_top <= i && i - pad_top < 5 { bursts[i - pad_top] } else { "" };
                    proof {
                        if pad_top <= i && i - pad_top < 5 {
                            assert(burst_line@ == burst()[i - pad_top]);
                        }
                    }
                    let b = self.paint(center(burst_line, 5).as_str(), "1;38;5;226");
                    let gi: usize = ((i as u128 * 6) / (height as u128)) as usize;
                    proof {
                        assert((i as int) * 6 < (height as int) * 6);
                        assert(((i as int) * 6) / (height as int) < 6) by (nonlinear_arith)
                            requires (i as int) * 6 < (height as int) * 6, height >= 1;
                        assert(gi as int == ((i as int) * 6) / (height as int));
                    }
                    let code = concat("1;", gradient_codes[gi]);
                    let word = self.paint(string_of(rows[i].as_slice()).as_str(), code.as_str());
                    let line = concat(concat3(" ", b.as_str(), " ").as_str(), word.as_str());
                    let ghost before = crate::collections::str_views(out@);
                    out.push(line);
                    proof {
                        assert(gradient_codes@[gi as int]@ == gradient()[gi as int]);
                        assert(line@ =~= banner_row(self.color, rv[i as int], i as int, height as int, pad_top as int));
                        assert(crate::collections::str_views(out@) =~= before.push(line@));
                        assert(crate::collections::str_views(out@) =~= Seq::new(
                            (i + 1) as nat,
                            |j: int| banner_row(self.color, rv[j], j, height as int, pad_top as int),
                        ));
                    }
                    i = i + 1;
                }
                out
            },
        }
    }

    pub fn subject(&self, text: &str) -> (r: String)
        ensures
            r@ == paint_spec(self.color, text@, "1;37"@),
    {
        self.paint(text, "1;37")
    }

    pub fn endpoint(&self, text: &str) -> (r: String)
        ensures
            r@ == paint_spec(self.color, text@, "38;5;42"@),
    {
        self.paint(text, "38;5;42")
    }

    pub fn ok(&self, text: &str) -> (r: String)
        ensures
            r@ == paint_spec(self.color, text@, "1;32"@),
    {
        self.paint(text, "1;32")
    }

    /// A small severity dot in the tier's colour.
    pub fn tier_dot(&self, tier: RiskTier) -> (r: String)
        ensures
            r@ == paint_spec(self.color, tier_glyph(tier), palette_spec(tier).1),
    {
        let (_, fg, _) = tier_palette(tier);
        let glyph = match tier {
            RiskTier::Minor => "\u{25cb}",
            RiskTier::Moderate => "\u{25d0}",
            RiskTier::Risky => "\u{25d5}",
            RiskTier::High => "\u{25cf}",
        };
        self.paint(glyph, fg)
    }

    /// A solid-colour chip with the tier's label.
    pub fn risk_pill(&self, tier: RiskTier) -> (r: String)
        ensures
            r@ == paint_spec(self.color, " "@ + palette_spec(tier).0 + " "@, palette_spec(tier).2),
    {
        let (label, _, code) = tier_palette(tier);
        self.paint(concat3(" ", label, " ").as_str(), code)
    }

    /// A bar of `cells` cells, `filled` of them solid in the tier's colour.
    pub fn hotspot_bar(&self, tier: RiskTier, filled: usize, cells: usize) -> (r: String)
        requires
            filled <= cells,
        ensures
            r@ == paint_spec(self.color, repeat_char('\u{2588}', filled as nat), palette_spec(tier).1) + paint_spec(
                self.color,
                repeat_char('\u{2591}', (cells - filled) as nat),
                "2;37"@,
            ),
    {
        let (_, fg, _) = tier_palette(tier);
        concat(self.paint(repeat('\u{2588}', filled).as_str(), fg).as_str(), self.paint(repeat('\u{2591}', cells - filled).as_str(), "2;37").as_str())
    }

    /// A 20-cell bar filled in proportion to the tier.
    pub fn meter(&self, tier: RiskTier) -> (r: String)
        ensures
            r@ == paint_spec(self.color, repeat_char('\u{2588}', meter_cells(tier)), palette_spec(tier).1) + paint_spec(
                self.color,
                repeat_char('\u{2591}', (20 - meter_cells(tier)) as nat),
                "2;37"@,
            ),
    {
        let filled: usize = match tier {
            RiskTier::Minor => 5,
            RiskTier::Moderate => 10,
            RiskTier::Risky => 15,
            RiskTier::High => 20,
        };
        self.hotspot_bar(tier, filled, 20)
    }

    /// A full-width section divider with the label in capitals.
    pub fn rule(&self, label: &str) -> (r: String)
        ensures
            r@ == rule_spec(self.color, spec_to_uppercase(label@)),
    {
        let upper = to_uppercase(label);
        let n = char_count(upper.as_str());
        let used: usize = if n < 60 { 2 + 2 + 1 + n + 1 } else { 61 };
        let trail: usize = if used < LAYOUT_WIDTH { LAYOUT_WIDTH - used } else { 0 };
        let lead = self.paint("\u{2500}\u{2500}", "2;37");
        let mid = self.paint(upper.as_str(), "1;37");
        let tail = self.paint(repeat('\u{2500}', trail).as_str(), "2;37");
        let r = concat(concat3("  ", lead.as_str(), " ").as_str(), concat3(mid.as_str(), " ", tail.as_str()).as_str());
        proof {
            assert(r@ =~= rule_spec(self.color, upper@));
        }
        r
    }

    pub fn pkg(&self, text: &str) -> (r: String)
        ensures
            r@ == paint_spec(self.color, text@, "1;36"@),
    {
        self.paint(text, "1;36")
    }

    pub fn count(&self, text: &str) -> (r: String)
        ensures
            r@ == paint_spec(self.color, text@, "1;32"@),
    {
        self.paint(text, "1;32")
    }

    pub fn path(&self, text: &str) -> (r: String)
        ensures
            r@ == paint_spec(self.color, text@, "36"@),
    {
        self.paint(text, "36")
    }

    pub fn symbol(&self, text: &str) -> (r: String)
        ensures
            r@ == paint_spec(self.color, "#"@ + text@, "1;33"@),
    {
        self.paint(concat("#", text).as_str(), "1;33")
    }

    pub fn number(&self, value: usize) -> (r: String)
        ensures
            r@ == paint_spec(self.color, decimal(value as nat), "1;32"@),
    {
        self.paint(usize_to_string(value).as_str(), "1;32")
    }

    pub fn file(&self, text: &str) -> (r: String)
        ensures
            r@ == paint_spec(self.color, text@, "34"@),
    {
        self.paint(text, "34")
    }

    pub fn export(&self, text: &str) -> (r: String)
        ensures
            r@ == paint_spec(self.color, text@, "33"@),
    {
        self.paint(text, "33")
    }

    pub fn depth(&self, value: usize) -> (r: String)
        ensures
            r@ == paint_spec(self.color, "d"@ + decimal(value as nat), "2;32"@),
    {
        self.paint(concat("d", usize_to_string(value).as_str()).as_str(), "2;32")
    }

    pub fn depth_root(&self, text: &str) -> (r: String)
        ensures
            r@ == paint_spec(self.color, text@, "2;32"@),
    {
        self.paint(text, "2;32")
    }

    pub fn root(&self, text: &str) -> (r: String)
        ensures
            r@ == paint_spec(self.color, "["@ + text@ + "]"@, "1;30;42"@),
    {
        self.paint(concat3("[", text, "]").as_str(), "1;30;42")
    }

    pub fn direct(&self, text: &str) -> (r: String)
        ensures
            r@ == paint_spec(self.color, "["@ + text@ + "]"@, "1;30;44"@),
    {
        self.paint(concat3("[", text, "]").as_str(), "1;30;44")
    }

    pub fn edge_tag(&self, text: &str) -> (r: String)
        ensures
            r@ == paint_spec(self.color, "["@ + text@ + "]"@, "2;34"@),
    {
        self.paint(concat3("[", text, "]").as_str(), "2;34")
    }

    pub fn warn_tag(&self, text: &str) -> (r: String)
        ensures
            r@ == paint_spec(self.color, "["@ + text@ + "]"@, "1;33"@),
    {
        self.paint(concat3("[", text, "]").as_str(), "1;33")
    }

    pub fn muted(&self, text: &str) -> (r: String)
        ensures
            r@ == paint_spec(self.color, text@, "2;37"@),
    {
        self.paint(text, "2;37")
    }

    pub fn warn(&self, text: &str) -> (r: String)
        ensures
            r@ == paint_spec(self.color, text@, "33"@),
    {
        self.paint(text, "33")
    }
}

pub open spec fn tier_glyph(tier: RiskTier) -> Seq<char> {
    match tier {
        RiskTier::Minor => "\u{25cb}"@,
        RiskTier::Moderate => "\u{25d0}"@,
        RiskTier::Risky => "\u{25d5}"@,
        RiskTier::High => "\u{25cf}"@,
    }
}

pub open spec fn meter_cells(tier: RiskTier) -> nat {
    match tier {
        RiskTier::Minor => 5,
        RiskTier::Moderate => 10,
        RiskTier::Risky => 15,
        RiskTier::High => 20,
    }
}

/// A section rule for the (already capitalised) label `upper`: a short lead,
/// the label, and a trail filling the line out to the layout width.
pub open spec fn rule_spec(color: bool, upper: Seq<char>) -> Seq<char> {
    let used = 2 + 2 + 1 + upper.len() + 1;
    let trail = if used < 60 { (60 - used) as nat } else { 0 };
    "  "@ + paint_spec(color, "\u{2500}\u{2500}"@, "2;37"@) + " "@ + paint_spec(color, upper, "1;37"@) + " "@ + paint_spec(
        color,
        repeat_char('\u{2500}', trail),
        "2;37"@,
    )
}

} // verus!
