//! Styled text. Output is built from segments, each a text with a style;
//! rendering a segment goes through the `colored` crate, which colours it
//! or leaves it plain depending on the environment and the terminal.

use vstd::prelude::*;
use colored::Colorize;

verus! {

/// The styles that reporters use.
#[derive(Clone, Copy, PartialEq, Eq, Structural)]
pub enum Style {
    Plain,
    Dimmed,
    Yellow,
    Green,
    Red,
    BoldDimmed,
    DimmedRed,
    BlackOnYellow,
    BlackOnGreen,
    WhiteOnRed,
    OnBrightGreen,
    OnBlack,
}

/// What `colored` renders for `.dimmed()` when colouring is on.
pub uninterp spec fn ansi_dimmed(t: Seq<char>) -> Seq<char>;
/// What `colored` renders for `.yellow()` when colouring is on.
pub uninterp spec fn ansi_yellow(t: Seq<char>) -> Seq<char>;
/// What `colored` renders for `.green()` when colouring is on.
pub uninterp spec fn ansi_green(t: Seq<char>) -> Seq<char>;
/// What `colored` renders for `.red()` when colouring is on.
pub uninterp spec fn ansi_red(t: Seq<char>) -> Seq<char>;
/// What `colored` renders for `.bold().dimmed()` when colouring is on.
pub uninterp spec fn ansi_bold_dimmed(t: Seq<char>) -> Seq<char>;
/// What `colored` renders for `.dimmed().red()` when colouring is on.
pub uninterp spec fn ansi_dimmed_red(t: Seq<char>) -> Seq<char>;
/// What `colored` renders for `.black().on_yellow()` when colouring is on.
pub uninterp spec fn ansi_black_on_yellow(t: Seq<char>) -> Seq<char>;
/// What `colored` renders for `.black().on_green()` when colouring is on.
pub uninterp spec fn ansi_black_on_green(t: Seq<char>) -> Seq<char>;
/// What `colored` renders for `.white().on_red()` when colouring is on.
pub uninterp spec fn ansi_white_on_red(t: Seq<char>) -> Seq<char>;
/// What `colored` renders for `.on_bright_green()` when colouring is on.
pub uninterp spec fn ansi_on_bright_green(t: Seq<char>) -> Seq<char>;
/// What `colored` renders for `.on_black()` when colouring is on.
pub uninterp spec fn ansi_on_black(t: Seq<char>) -> Seq<char>;

/// The coloured rendering of `t` in style `s`.
pub open spec fn styled(s: Style, t: Seq<char>) -> Seq<char> {
    match s {
        Style::Plain => t,
        Style::Dimmed => ansi_dimmed(t),
        Style::Yellow => ansi_yellow(t),
        Style::Green => ansi_green(t),
        Style::Red => ansi_red(t),
        Style::BoldDimmed => ansi_bold_dimmed(t),
        Style::DimmedRed => ansi_dimmed_red(t),
        Style::BlackOnYellow => ansi_black_on_yellow(t),
        Style::BlackOnGreen => ansi_black_on_green(t),
        Style::WhiteOnRed => ansi_white_on_red(t),
        Style::OnBrightGreen => ansi_on_bright_green(t),
        Style::OnBlack => ansi_on_black(t),
    }
}

/// A segment rendered coloured (`coloured`) or plain.
pub open spec fn piece(seg: (Style, Seq<char>), coloured: bool) -> Seq<char> {
    if coloured { styled(seg.0, seg.1) } else { seg.1 }
}

/// The segments rendered one after the other, each coloured or not as
/// `picks` says.
pub open spec fn rendered(segs: Seq<(Style, Seq<char>)>, picks: Seq<bool>) -> Seq<char>
    decreases segs.len(),
{
    if segs.len() == 0 {
        Seq::empty()
    } else {
        rendered(segs.drop_last(), picks.drop_last()) + piece(segs.last(), picks.last())
    }
}

/// `out` is a rendering of `segs`: the segments in order, each one either
/// plain or coloured.
pub open spec fn renders(out: Seq<char>, segs: Seq<(Style, Seq<char>)>) -> bool {
    exists|picks: Seq<bool>| picks.len() == segs.len() && out == rendered(segs, picks)
}

/// The plain text of the segments.
pub open spec fn plain_text(segs: Seq<(Style, Seq<char>)>) -> Seq<char>
    decreases segs.len(),
{
    if segs.len() == 0 {
        Seq::empty()
    } else {
        plain_text(segs.drop_last()) + segs.last().1
    }
}

pub proof fn lemma_rendered_concat(s1: Seq<(Style, Seq<char>)>, p1: Seq<bool>, s2: Seq<(Style, Seq<char>)>, p2: Seq<bool>)
    requires
        p1.len() == s1.len(),
        p2.len() == s2.len(),
    ensures
        rendered(s1 + s2, p1 + p2) == rendered(s1, p1) + rendered(s2, p2),
    decreases s2.len(),
{
    if s2.len() == 0 {
        assert(s1 + s2 =~= s1);
        assert(p1 + p2 =~= p1);
        assert(rendered(s1, p1) + rendered(s2, p2) =~= rendered(s1, p1));
    } else {
        assert((s1 + s2).drop_last() =~= s1 + s2.drop_last());
        assert((p1 + p2).drop_last() =~= p1 + p2.drop_last());
        lemma_rendered_concat(s1, p1, s2.drop_last(), p2.drop_last());
        assert(rendered(s1 + s2, p1 + p2) =~= rendered(s1, p1) + rendered(s2, p2));
    }
}

/// Renderings of two segment lists, one after the other, render both lists.
pub proof fn lemma_renders_concat(a: Seq<char>, s1: Seq<(Style, Seq<char>)>, b: Seq<char>, s2: Seq<(Style, Seq<char>)>)
    requires
        renders(a, s1),
        renders(b, s2),
    ensures
        renders(a + b, s1 + s2),
{
    let p1 = choose|picks: Seq<bool>| picks.len() == s1.len() && a == rendered(s1, picks);
    let p2 = choose|picks: Seq<bool>| picks.len() == s2.len() && b == rendered(s2, picks);
    lemma_rendered_concat(s1, p1, s2, p2);
    assert((p1 + p2).len() == (s1 + s2).len());
}

/// Plain segments render as their text.
pub proof fn lemma_renders_plain(t: Seq<char>)
    ensures
        renders(t, seq![(Style::Plain, t)]),
{
    let picks = seq![false];
    let segs = seq![(Style::Plain, t)];
    assert(segs.drop_last() =~= Seq::<(Style, Seq<char>)>::empty());
    assert(picks.drop_last() =~= Seq::<bool>::empty());
    assert(rendered(segs.drop_last(), picks.drop_last()) =~= Seq::<char>::empty());
    assert(rendered(segs, picks) =~= t);
}

/// Nothing renders as the empty text.
pub proof fn lemma_renders_empty()
    ensures
        renders(Seq::empty(), Seq::<(Style, Seq<char>)>::empty()),
{
    let picks = Seq::<bool>::empty();
    assert(rendered(Seq::<(Style, Seq<char>)>::empty(), picks) =~= Seq::<char>::empty());
    assert(picks.len() == Seq::<(Style, Seq<char>)>::empty().len());
}

proof fn lemma_renders_one(out: Seq<char>, s: Style, t: Seq<char>)
    requires
        out == t || out == styled(s, t),
    ensures
        renders(out, seq![(s, t)]),
{
    let picks = if out == t { seq![false] } else { seq![true] };
    assert(seq![(s, t)].drop_last() =~= Seq::<(Style, Seq<char>)>::empty());
    assert(picks.drop_last() =~= Seq::<bool>::empty());
    assert(rendered(seq![(s, t)].drop_last(), picks.drop_last()) =~= Seq::<char>::empty());
    assert(rendered(seq![(s, t)], picks) =~= out);
}

/// `t.dimmed()` rendered through `colored`'s `Display`: `t` itself when
/// colouring is off (by the environment or the terminal), else the
/// coloured form.
#[verifier::external_body]
fn paint_dimmed(t: &str) -> (r: String)
    ensures
        r@ == t@ || r@ == ansi_dimmed(t@),
{
    t.dimmed().to_string()
}

/// `t.yellow()` rendered through `colored`, plain when colouring is off.
#[verifier::external_body]
fn paint_yellow(t: &str) -> (r: String)
    ensures
        r@ == t@ || r@ == ansi_yellow(t@),
{
    t.yellow().to_string()
}

/// `t.green()` rendered through `colored`, plain when colouring is off.
#[verifier::external_body]
fn paint_green(t: &str) -> (r: String)
    ensures
        r@ == t@ || r@ == ansi_green(t@),
{
    t.green().to_string()
}

/// `t.red()` rendered through `colored`, plain when colouring is off.
#[verifier::external_body]
fn paint_red(t: &str) -> (r: String)
    ensures
        r@ == t@ || r@ == ansi_red(t@),
{
    t.red().to_string()
}

/// `t.bold().dimmed()` rendered through `colored`, plain when colouring is off.
#[verifier::external_body]
fn paint_bold_dimmed(t: &str) -> (r: String)
    ensures
        r@ == t@ || r@ == ansi_bold_dimmed(t@),
{
    t.bold().dimmed().to_string()
}

/// `t.dimmed().red()` rendered through `colored`, plain when colouring is off.
#[verifier::external_body]
fn paint_dimmed_red(t: &str) -> (r: String)
    ensures
        r@ == t@ || r@ == ansi_dimmed_red(t@),
{
    t.dimmed().red().to_string()
}

/// `t.black().on_yellow()` rendered through `colored`, plain when colouring is off.
#[verifier::external_body]
fn paint_black_on_yellow(t: &str) -> (r: String)
    ensures
        r@ == t@ || r@ == ansi_black_on_yellow(t@),
{
    t.black().on_yellow().to_string()
}

/// `t.black().on_green()` rendered through `colored`, plain when colouring is off.
#[verifier::external_body]
fn paint_black_on_green(t: &str) -> (r: String)
    ensures
        r@ == t@ || r@ == ansi_black_on_green(t@),
{
    t.black().on_green().to_string()
}

/// `t.white().on_red()` rendered through `colored`, plain when colouring is off.
#[verifier::external_body]
fn paint_white_on_red(t: &str) -> (r: String)
    ensures
        r@ == t@ || r@ == ansi_white_on_red(t@),
{
    t.white().on_red().to_string()
}

/// `t.on_bright_green()` rendered through `colored`, plain when colouring is off.
#[verifier::external_body]
fn paint_on_bright_green(t: &str) -> (r: String)
    ensures
        r@ == t@ || r@ == ansi_on_bright_green(t@),
{
    t.on_bright_green().to_string()
}

/// `t.on_black()` rendered through `colored`, plain when colouring is off.
#[verifier::external_body]
fn paint_on_black(t: &str) -> (r: String)
    ensures
        r@ == t@ || r@ == ansi_on_black(t@),
{
    t.on_black().to_string()
}

/// Renders `t` in style `s`.
pub fn paint(s: Style, t: &str) -> (r: String)
    ensures
        renders(r@, seq![(s, t@)]),
{
    let r = match s {
        Style::Plain => String::from_str(t),
        Style::Dimmed => paint_dimmed(t),
        Style::Yellow => paint_yellow(t),
        Style::Green => paint_green(t),
        Style::Red => paint_red(t),
        Style::BoldDimmed => paint_bold_dimmed(t),
        Style::DimmedRed => paint_dimmed_red(t),
        Style::BlackOnYellow => paint_black_on_yellow(t),
        Style::BlackOnGreen => paint_black_on_green(t),
        Style::WhiteOnRed => paint_white_on_red(t),
        Style::OnBrightGreen => paint_on_bright_green(t),
        Style::OnBlack => paint_on_black(t),
    };
    proof {
        lemma_renders_one(r@, s, t@);
    }
    r
}

/// Appends `t` rendered in style `s` to `out`.
pub fn push_painted(out: &mut String, s: Style, t: &str, Ghost(segs): Ghost<Seq<(Style, Seq<char>)>>)
    requires
        renders(old(out)@, segs),
    ensures
        renders(final(out)@, segs.push((s, t@))),
{
    let p = paint(s, t);
    proof {
        lemma_renders_concat(out@, segs, p@, seq![(s, t@)]);
        assert(segs + seq![(s, t@)] =~= segs.push((s, t@)));
    }
    out.append(p.as_str());
}

/// What `strip_ansi_escapes::strip_str` returns for `s`.
pub uninterp spec fn ansi_stripped(s: Seq<char>) -> Seq<char>;

/// `strip_ansi_escapes::strip_str`: the text without ANSI escape sequences.
#[verifier::external_body]
pub fn strip_ansi(s: &str) -> (r: String)
    ensures
        r@ == ansi_stripped(s@),
{
    strip_ansi_escapes::strip_str(s)
}

} // verus!
