//! Styled text on terminals.
use anstyle::{Ansi256Color, Color, Effects, Style};
use crate::text;
use crate::text::concat;
use vstd::prelude::*;

verus! {

/// How a piece of text looks: bold or not, dimmed or not, in one of the sixteen terminal colors.
#[derive(Debug, Clone, Copy, PartialEq, Eq, Structural)]
pub struct Paint {
    pub bold: bool,
    pub dimmed: bool,
    /// Black, red, green, yellow, blue, magenta, cyan and white, followed by their bright variants
    pub color: u8,
}

/// The code that switches to a color.
pub open spec fn color_code(color: u8) -> Seq<char> {
    if color < 8 {
        "\u{1b}[3"@.push(text::digit_char(color as nat)) + "m"@
    } else {
        "\u{1b}[9"@.push(text::digit_char((color - 8) as nat)) + "m"@
    }
}

impl Paint {
    pub open spec fn wf(self) -> bool {
        self.color < 16
    }

    /// The codes that switch to this look.
    pub open spec fn on(self) -> Seq<char> {
        (if self.bold {
            "\u{1b}[1m"@
        } else {
            Seq::empty()
        }) + (if self.dimmed {
            "\u{1b}[2m"@
        } else {
            Seq::empty()
        }) + color_code(self.color)
    }

    pub open spec fn plain(color: u8) -> Self {
        Paint { bold: false, dimmed: false, color }
    }
}

/// The code that ends every look.
pub open spec fn off() -> Seq<char> {
    "\u{1b}[0m"@
}

/// `anstyle::Style::render`, of a style with these effects and a foreground color: the code of
/// each effect, followed by the code of the color.
#[verifier::external_body]
fn render_style(bold: bool, dimmed: bool, color: u8) -> (r: String)
    requires
        color < 16,
    ensures
        r@ == (Paint { bold, dimmed, color }).on(),
{
    let effects = Effects::new().set(Effects::BOLD, bold).set(Effects::DIMMED, dimmed);
    let color = Ansi256Color(color).into_ansi().map(Color::Ansi);
    Style::new().effects(effects).fg_color(color).render().to_string()
}

/// `anstyle::Style::render_reset`, of a style with these effects and a foreground color: the code
/// that ends all effects and colors.
#[verifier::external_body]
fn render_style_reset(bold: bool, dimmed: bool, color: u8) -> (r: String)
    requires
        color < 16,
    ensures
        r@ == off(),
{
    let effects = Effects::new().set(Effects::BOLD, bold).set(Effects::DIMMED, dimmed);
    let color = Ansi256Color(color).into_ansi().map(Color::Ansi);
    Style::new().effects(effects).fg_color(color).render_reset().to_string()
}

impl Paint {
    /// The codes that switch to this look.
    pub fn render(&self) -> (r: String)
        requires
            self.wf(),
        ensures
            r@ == self.on(),
    {
        render_style(self.bold, self.dimmed, self.color)
    }

    /// The code that ends this look.
    pub fn render_reset(&self) -> (r: String)
        requires
            self.wf(),
        ensures
            r@ == off(),
    {
        render_style_reset(self.bold, self.dimmed, self.color)
    }

    /// The text in this look.
    pub fn paint(&self, text: &str) -> (r: String)
        requires
            self.wf(),
        ensures
            r@ == painted(*self, text@),
    {
        concat(
            concat(self.render().as_str(), text).as_str(),
            self.render_reset().as_str(),
        )
    }
}

/// The text in this look.
pub open spec fn painted(paint: Paint, text: Seq<char>) -> Seq<char> {
    paint.on() + text + off()
}

/// The look of what went well.
pub fn style_ok() -> (r: Paint)
    ensures
        r == spec_style_ok(),
{
    Paint { bold: false, dimmed: false, color: 2 }
}

pub open spec fn spec_style_ok() -> Paint {
    Paint::plain(2)
}

/// The look of what failed.
pub fn style_failed() -> (r: Paint)
    ensures
        r == spec_style_failed(),
{
    Paint { bold: true, dimmed: false, color: 1 }
}

pub open spec fn spec_style_failed() -> Paint {
    Paint { bold: true, dimmed: false, color: 1 }
}

/// The look of what was ignored.
pub fn style_ignored() -> (r: Paint)
    ensures
        r == spec_style_ignored(),
{
    Paint { bold: false, dimmed: true, color: 3 }
}

pub open spec fn spec_style_ignored() -> Paint {
    Paint { bold: false, dimmed: true, color: 3 }
}

/// The look of benchmarks.
pub fn style_bench() -> (r: Paint)
    ensures
        r == spec_style_bench(),
{
    Paint { bold: false, dimmed: false, color: 6 }
}

pub open spec fn spec_style_bench() -> Paint {
    Paint::plain(6)
}

/// The look of progress reports.
pub fn style_progress() -> (r: Paint)
    ensures
        r == spec_style_progress(),
{
    Paint { bold: true, dimmed: false, color: 15 }
}

pub open spec fn spec_style_progress() -> Paint {
    Paint { bold: true, dimmed: false, color: 15 }
}

/// The look of lines from the standard error stream, and of times that deserve a warning.
pub fn style_stderr() -> (r: Paint)
    ensures
        r == spec_style_stderr(),
{
    Paint { bold: false, dimmed: false, color: 3 }
}

pub open spec fn spec_style_stderr() -> Paint {
    Paint::plain(3)
}

/// The look of times that are too long.
pub fn style_critical_time() -> (r: Paint)
    ensures
        r == spec_style_critical_time(),
{
    Paint { bold: false, dimmed: false, color: 1 }
}

pub open spec fn spec_style_critical_time() -> Paint {
    Paint::plain(1)
}

} // verus!
