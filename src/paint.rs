//! Rendering one run of text in a style, through owo-colors.
use vstd::prelude::*;
use owo_colors::Effect;
use crate::style::{Color, Style};

verus! {

#[verifier::external_type_specification]
pub struct ExEffect(owo_colors::Effect);

/// The text `text` as owo-colors displays it under a style that is not plain:
/// the style's ANSI prefix, the text, and a reset suffix.
pub uninterp spec fn styled_text(text: Seq<char>, style: Style) -> Seq<char>;

/// The text `text` displayed under `style`; a plain style leaves it as it is.
pub open spec fn painted(text: Seq<char>, style: Style) -> Seq<char> {
    if style.is_plain() {
        text
    } else {
        styled_text(text, style)
    }
}

pub open spec fn effect_if(on: bool, e: Effect) -> Seq<Effect> {
    if on {
        seq![e]
    } else {
        Seq::empty()
    }
}

/// The owo-colors effects that `style` turns on, in a fixed order.
pub open spec fn effect_seq(style: Style) -> Seq<Effect> {
    effect_if(style.bold, Effect::Bold) + effect_if(style.dimmed, Effect::Dimmed) + effect_if(
        style.italic,
        Effect::Italic,
    ) + effect_if(style.underline, Effect::Underline) + effect_if(style.blink, Effect::Blink)
        + effect_if(style.hidden, Effect::Hidden) + effect_if(
        style.strikethrough,
        Effect::Strikethrough,
    )
}

fn push_if(v: &mut Vec<Effect>, on: bool, e: Effect)
    ensures
        final(v)@ == old(v)@ + effect_if(on, e),
{
    if on {
        v.push(e);
    }
    assert(final(v)@ =~= old(v)@ + effect_if(on, e));
}

fn effects_of(style: &Style) -> (r: Vec<Effect>)
    ensures
        r@ == effect_seq(*style),
{
    let mut v: Vec<Effect> = Vec::new();
    push_if(&mut v, style.bold, Effect::Bold);
    push_if(&mut v, style.dimmed, Effect::Dimmed);
    push_if(&mut v, style.italic, Effect::Italic);
    push_if(&mut v, style.underline, Effect::Underline);
    push_if(&mut v, style.blink, Effect::Blink);
    push_if(&mut v, style.hidden, Effect::Hidden);
    push_if(&mut v, style.strikethrough, Effect::Strikethrough);
    assert(v@ =~= effect_seq(*style));
    v
}

/// Relies on owo_colors::Style (its `color`, `truecolor` and `effects`
/// setters) and the `Display` of `Style::style`: the result depends on the
/// text and the style alone, and a plain style writes neither prefix nor suffix.
#[verifier::external_body]
fn paint_with(text: &str, style: &Style, effects: &[Effect]) -> (r: String)
    requires
        effects@ == effect_seq(*style),
    ensures
        style.is_plain() ==> r@ == text@,
        !style.is_plain() ==> r@ == styled_text(text@, *style),
{
    let s = match style.fg {
        Some(Color::Ansi(c)) => owo_colors::Style::new().color(c),
        Some(Color::Rgb(r, g, b)) => owo_colors::Style::new().truecolor(r, g, b),
        None => owo_colors::Style::new(),
    };
    format!("{}", s.effects(effects).style(text))
}

/// The text `text` displayed under `style`.
pub(crate) fn paint(text: &str, style: &Style) -> (r: String)
    ensures
        r@ == painted(text@, *style),
{
    let effects = effects_of(style);
    paint_with(text, style, effects.as_slice())
}

} // verus!
