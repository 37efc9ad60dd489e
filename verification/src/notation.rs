use vstd::prelude::*;

use crate::ternary::Ternary;

verus! {

/// The compact notation of one value: `X` for an accent, `o` for a ghost note,
/// `.` for a silence.
pub open spec fn symbol_of(t: Ternary) -> char {
    match t {
        Ternary::Positive => 'X',
        Ternary::Negative => 'o',
        Ternary::Neutral => '.',
    }
}

/// The value of one character of the compact notation: `X`, `x` or `1` is an accent;
/// `o`, `O` or `-` a ghost note; anything else a silence.
pub open spec fn value_of_symbol(c: char) -> Ternary {
    if c == 'X' || c == 'x' || c == '1' {
        Ternary::Positive
    } else if c == 'o' || c == 'O' || c == '-' {
        Ternary::Negative
    } else {
        Ternary::Neutral
    }
}

/// The compact notation of a pattern.
pub open spec fn notation_of(s: Seq<Ternary>) -> Seq<char> {
    s.map_values(|t: Ternary| symbol_of(t))
}

/// The pattern that a compact notation denotes.
pub open spec fn pattern_of_notation(s: Seq<char>) -> Seq<Ternary> {
    s.map_values(|c: char| value_of_symbol(c))
}

/// Appends one character to a string (`String::push`).
#[verifier::external_body]
fn push_char(s: &mut String, c: char)
    ensures
        final(s)@ == old(s)@.push(c),
{
    s.push(c);
}

/// Compact string of a pattern: `X` = +1, `o` = -1, `.` = 0.
pub fn to_string(pattern: &[Ternary]) -> (r: String)
    ensures
        r@ == notation_of(pattern@),
{
    let mut r = String::new();
    let mut i: usize = 0;
    while i < pattern.len()
        invariant
            i <= pattern@.len(),
            r@ == notation_of(pattern@).subrange(0, i as int),
        decreases pattern@.len() - i,
    {
        let c = match pattern[i] {
            Ternary::Positive => 'X',
            Ternary::Negative => 'o',
            Ternary::Neutral => '.',
        };
        push_char(&mut r, c);
        i = i + 1;
        assert(r@ =~= notation_of(pattern@).subrange(0, i as int));
    }
    assert(r@ =~= notation_of(pattern@));
    r
}

/// Parse a compact string: `X`, `x`, `1` = +1; `o`, `O`, `-` = -1; anything else = 0.
pub fn from_string(s: &str) -> (r: Vec<Ternary>)
    ensures
        r@ == pattern_of_notation(s@),
{
    broadcast use vstd::string::group_string_axioms;
    let mut r: Vec<Ternary> = Vec::new();
    for c in it: s.chars()
        invariant
            it.seq() == s@,
            r@ == pattern_of_notation(s@).subrange(0, it.index() as int),
    {
        let v = if c == 'X' || c == 'x' || c == '1' {
            Ternary::Positive
        } else if c == 'o' || c == 'O' || c == '-' {
            Ternary::Negative
        } else {
            Ternary::Neutral
        };
        r.push(v);
    }
    assert(r@ =~= pattern_of_notation(s@));
    r
}

/// Reading back the compact notation of a pattern gives the pattern.
pub proof fn lemma_notation_round_trip(s: Seq<Ternary>)
    ensures
        pattern_of_notation(notation_of(s)) == s,
{
    assert(pattern_of_notation(notation_of(s)) =~= s);
}

/// The decimal digit `d` (below ten) as a character.
pub open spec fn digit_char(d: nat) -> char {
    if d == 0 {
        '0'
    } else if d == 1 {
        '1'
    } else if d == 2 {
        '2'
    } else if d == 3 {
        '3'
    } else if d == 4 {
        '4'
    } else if d == 5 {
        '5'
    } else if d == 6 {
        '6'
    } else if d == 7 {
        '7'
    } else if d == 8 {
        '8'
    } else {
        '9'
    }
}

/// The decimal representation of a number below 100.
pub open spec fn decimal_of(x: nat) -> Seq<char> {
    if x < 10 {
        seq![digit_char(x)]
    } else {
        seq![digit_char(x / 10), digit_char(x % 10)]
    }
}

/// The step ruler of `n` steps: every fourth step (from step 0) shows its number
/// modulo 100, the others a space.
pub open spec fn ruler(n: nat) -> Seq<char>
    decreases n,
{
    if n == 0 {
        Seq::empty()
    } else {
        let i = (n - 1) as nat;
        ruler(i) + if i % 4 == 0 {
            decimal_of(i % 100)
        } else {
            seq![' ']
        }
    }
}

/// The block glyph of a value: a full block for an accent, a light shade for a ghost
/// note, a middle dot for a silence.
pub open spec fn glyph_of(t: Ternary) -> char {
    match t {
        Ternary::Positive => '\u{2588}',
        Ternary::Negative => '\u{2591}',
        Ternary::Neutral => '\u{b7}',
    }
}

/// The indentation of the picture's lines.
pub open spec fn indent() -> Seq<char> {
    seq![' ', ' ', ' ', ' ']
}

/// The closing legend of the picture.
pub open spec fn legend() -> Seq<char> {
    LEGEND@
}

/// The legend text that ends every picture.
pub const LEGEND: &'static str = "\n\n    \u{2588} = accent (+1)   \u{2591} = ghost (-1)   \u{b7} = silence (0)\n";

/// The picture of a pattern: the optional label line, the step ruler, a line of dashes,
/// the glyphs, and the legend.
pub open spec fn picture_of(s: Seq<Ternary>, label: Option<Seq<char>>) -> Seq<char> {
    let head = match label {
        Some(l) => l + seq!['\n'],
        None => Seq::empty(),
    };
    head + indent() + ruler(s.len()) + seq!['\n'] + indent() + Seq::new(s.len(), |i: int| '-')
        + seq!['\n'] + indent() + s.map_values(|t: Ternary| glyph_of(t)) + legend()
}

fn digit(d: usize) -> (c: char)
    requires
        d < 10,
    ensures
        c == digit_char(d as nat),
{
    if d == 0 {
        '0'
    } else if d == 1 {
        '1'
    } else if d == 2 {
        '2'
    } else if d == 3 {
        '3'
    } else if d == 4 {
        '4'
    } else if d == 5 {
        '5'
    } else if d == 6 {
        '6'
    } else if d == 7 {
        '7'
    } else if d == 8 {
        '8'
    } else {
        '9'
    }
}

fn push_indent(out: &mut String)
    ensures
        final(out)@ == old(out)@ + indent(),
{
    push_char(out, ' ');
    push_char(out, ' ');
    push_char(out, ' ');
    push_char(out, ' ');
    assert(final(out)@ =~= old(out)@ + indent());
}

/// ASCII-art picture of a pattern, with an optional label line.
pub fn visualize(pattern: &[Ternary], label: Option<&str>) -> (r: String)
    ensures
        r@ == picture_of(
            pattern@,
            match label {
                Some(l) => Some(l@),
                None => None,
            },
        ),
{
    let n = pattern.len();
    let mut out = String::new();
    if let Some(l) = label {
        out.append(l);
        push_char(&mut out, '\n');
    }
    push_indent(&mut out);
    let ghost start = out@;
    let mut i: usize = 0;
    while i < n
        invariant
            n == pattern@.len(),
            i <= n,
            out@ == start + ruler(i as nat),
        decreases n - i,
    {
        if i % 4 == 0 {
            let x = i % 100;
            if x < 10 {
                push_char(&mut out, digit(x));
            } else {
                push_char(&mut out, digit(x / 10));
                push_char(&mut out, digit(x % 10));
            }
        } else {
            push_char(&mut out, ' ');
        }
        i = i + 1;
        assert(out@ =~= start + ruler(i as nat));
    }
    push_char(&mut out, '\n');
    push_indent(&mut out);
    let ghost start2 = out@;
    let mut i: usize = 0;
    while i < n
        invariant
            n == pattern@.len(),
            i <= n,
            out@ == start2 + Seq::new(i as nat, |j: int| '-'),
        decreases n - i,
    {
        push_char(&mut out, '-');
        i = i + 1;
        assert(out@ =~= start2 + Seq::new(i as nat, |j: int| '-'));
    }
    push_char(&mut out, '\n');
    push_indent(&mut out);
    let ghost start3 = out@;
    let mut i: usize = 0;
    while i < n
        invariant
            n == pattern@.len(),
            i <= n,
            out@ == start3 + pattern@.subrange(0, i as int).map_values(|t: Ternary| glyph_of(t)),
        decreases n - i,
    {
        let g = match pattern[i] {
            Ternary::Positive => '\u{2588}',
            Ternary::Negative => '\u{2591}',
            Ternary::Neutral => '\u{b7}',
        };
        push_char(&mut out, g);
        i = i + 1;
        assert(out@ =~= start3 + pattern@.subrange(0, i as int).map_values(
            |t: Ternary| glyph_of(t),
        ));
    }
    assert(pattern@.subrange(0, n as int) =~= pattern@);
    out.append(LEGEND);
    assert(out@ =~= picture_of(
        pattern@,
        match label {
            Some(l) => Some(l@),
            None => None,
        },
    ));
    out
}

} // verus!
