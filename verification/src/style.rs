//! Cell styles. A style sets some properties and leaves the others open.
//! Numbers in styles are numerals, as they are written in files.
use vstd::prelude::*;

verus! {

#[derive(Debug, Clone, Copy, PartialEq, Eq, Structural)]
pub enum HAlign {
    Left,
    Center,
    Right,
    Fill,
    Justify,
    CenterContinuous,
}

#[derive(Debug, Clone, Copy, PartialEq, Eq, Structural)]
pub enum VAlign {
    Top,
    Middle,
    Bottom,
}

#[derive(Debug, Clone, Copy, PartialEq, Eq, Structural)]
pub enum BorderLineStyle {
    NoLine,
    Thin,
    Medium,
    Thick,
    Dashed,
    Dotted,
    Double,
}

/// One side of a border.
#[derive(Debug, Clone, PartialEq)]
pub struct BorderEdge {
    pub style: BorderLineStyle,
    pub color: String,
}

/// The sides of a border.
#[derive(Debug, Clone, PartialEq)]
pub struct Borders {
    pub left: Option<BorderEdge>,
    pub right: Option<BorderEdge>,
    pub top: Option<BorderEdge>,
    pub bottom: Option<BorderEdge>,
    pub diagonal_down: Option<BorderEdge>,
    pub diagonal_up: Option<BorderEdge>,
}

/// A style.
#[derive(Debug, Clone, PartialEq)]
pub struct Style {
    /// A named style that this one builds on.
    pub style_name: Option<String>,
    pub bold: Option<bool>,
    pub italic: Option<bool>,
    pub underline: Option<bool>,
    pub strikethrough: Option<bool>,
    pub font_size: Option<String>,
    pub font_family: Option<String>,
    pub fore_color: Option<String>,
    pub back_color: Option<String>,
    pub h_align: Option<HAlign>,
    pub v_align: Option<VAlign>,
    pub word_wrap: Option<bool>,
    pub text_rotation: Option<String>,
    pub indent: Option<String>,
    pub shrink_to_fit: Option<bool>,
    pub formatter: Option<String>,
    pub borders: Option<Borders>,
    pub locked: Option<bool>,
}

/// The style that leaves everything open.
pub open spec fn empty_style() -> Style {
    Style {
        style_name: None,
        bold: None,
        italic: None,
        underline: None,
        strikethrough: None,
        font_size: None,
        font_family: None,
        fore_color: None,
        back_color: None,
        h_align: None,
        v_align: None,
        word_wrap: None,
        text_rotation: None,
        indent: None,
        shrink_to_fit: None,
        formatter: None,
        borders: None,
        locked: None,
    }
}

/// The second value where it is set, else the first.
pub open spec fn over<T>(a: Option<T>, b: Option<T>) -> Option<T> {
    if b is Some {
        b
    } else {
        a
    }
}

/// A style with what another one sets put over it.
pub open spec fn overlaid(a: Style, b: Style) -> Style {
    Style {
        style_name: over(a.style_name, b.style_name),
        bold: over(a.bold, b.bold),
        italic: over(a.italic, b.italic),
        underline: over(a.underline, b.underline),
        strikethrough: over(a.strikethrough, b.strikethrough),
        font_size: over(a.font_size, b.font_size),
        font_family: over(a.font_family, b.font_family),
        fore_color: over(a.fore_color, b.fore_color),
        back_color: over(a.back_color, b.back_color),
        h_align: over(a.h_align, b.h_align),
        v_align: over(a.v_align, b.v_align),
        word_wrap: over(a.word_wrap, b.word_wrap),
        text_rotation: over(a.text_rotation, b.text_rotation),
        indent: over(a.indent, b.indent),
        shrink_to_fit: over(a.shrink_to_fit, b.shrink_to_fit),
        formatter: over(a.formatter, b.formatter),
        borders: over(a.borders, b.borders),
        locked: over(a.locked, b.locked),
    }
}

/// A style without its named style.
pub open spec fn unnamed(s: Style) -> Style {
    Style { style_name: None, ..s }
}

pub fn copy_text(o: &Option<String>) -> (r: Option<String>)
    ensures
        r == *o,
{
    match o {
        Some(s) => Some(s.clone()),
        None => None,
    }
}

pub fn copy_edge(o: &Option<BorderEdge>) -> (r: Option<BorderEdge>)
    ensures
        r == *o,
{
    match o {
        Some(e) => Some(BorderEdge { style: e.style, color: e.color.clone() }),
        None => None,
    }
}

pub fn copy_borders(o: &Option<Borders>) -> (r: Option<Borders>)
    ensures
        r == *o,
{
    match o {
        Some(b) => Some(
            Borders {
                left: copy_edge(&b.left),
                right: copy_edge(&b.right),
                top: copy_edge(&b.top),
                bottom: copy_edge(&b.bottom),
                diagonal_down: copy_edge(&b.diagonal_down),
                diagonal_up: copy_edge(&b.diagonal_up),
            },
        ),
        None => None,
    }
}

impl Default for Borders {
    fn default() -> (r: Self)
        ensures
            r == (Borders {
                left: None,
                right: None,
                top: None,
                bottom: None,
                diagonal_down: None,
                diagonal_up: None,
            }),
    {
        Borders {
            left: None,
            right: None,
            top: None,
            bottom: None,
            diagonal_down: None,
            diagonal_up: None,
        }
    }
}

impl Default for Style {
    fn default() -> (r: Self)
        ensures
            r == empty_style(),
    {
        Style {
            style_name: None,
            bold: None,
            italic: None,
            underline: None,
            strikethrough: None,
            font_size: None,
            font_family: None,
            fore_color: None,
            back_color: None,
            h_align: None,
            v_align: None,
            word_wrap: None,
            text_rotation: None,
            indent: None,
            shrink_to_fit: None,
            formatter: None,
            borders: None,
            locked: None,
        }
    }
}

fn over_text(a: Option<String>, b: &Option<String>) -> (r: Option<String>)
    ensures
        r == over(a, *b),
{
    if b.is_some() {
        copy_text(b)
    } else {
        a
    }
}

fn over_flag(a: Option<bool>, b: Option<bool>) -> (r: Option<bool>)
    ensures
        r == over(a, b),
{
    if b.is_some() {
        b
    } else {
        a
    }
}

impl Style {
    /// Whether the style leaves everything open.
    pub fn is_empty(&self) -> (r: bool)
        ensures
            r == (*self == empty_style()),
    {
        self.style_name.is_none() && self.bold.is_none() && self.italic.is_none()
            && self.underline.is_none() && self.strikethrough.is_none() && self.font_size.is_none()
            && self.font_family.is_none() && self.fore_color.is_none() && self.back_color.is_none()
            && self.h_align.is_none() && self.v_align.is_none() && self.word_wrap.is_none()
            && self.text_rotation.is_none() && self.indent.is_none()
            && self.shrink_to_fit.is_none() && self.formatter.is_none() && self.borders.is_none()
            && self.locked.is_none()
    }

    /// The same style again.
    pub fn copied(&self) -> (r: Style)
        ensures
            r == *self,
    {
        Style {
            style_name: copy_text(&self.style_name),
            bold: self.bold,
            italic: self.italic,
            underline: self.underline,
            strikethrough: self.strikethrough,
            font_size: copy_text(&self.font_size),
            font_family: copy_text(&self.font_family),
            fore_color: copy_text(&self.fore_color),
            back_color: copy_text(&self.back_color),
            h_align: self.h_align,
            v_align: self.v_align,
            word_wrap: self.word_wrap,
            text_rotation: copy_text(&self.text_rotation),
            indent: copy_text(&self.indent),
            shrink_to_fit: self.shrink_to_fit,
            formatter: copy_text(&self.formatter),
            borders: copy_borders(&self.borders),
            locked: self.locked,
        }
    }

    /// The style with what `top` sets put over it.
    pub fn overlay(self, top: &Style) -> (r: Style)
        ensures
            r == overlaid(self, *top),
    {
        Style {
            style_name: over_text(self.style_name, &top.style_name),
            bold: over_flag(self.bold, top.bold),
            italic: over_flag(self.italic, top.italic),
            underline: over_flag(self.underline, top.underline),
            strikethrough: over_flag(self.strikethrough, top.strikethrough),
            font_size: over_text(self.font_size, &top.font_size),
            font_family: over_text(self.font_family, &top.font_family),
            fore_color: over_text(self.fore_color, &top.fore_color),
            back_color: over_text(self.back_color, &top.back_color),
            h_align: if top.h_align.is_some() {
                top.h_align
            } else {
                self.h_align
            },
            v_align: if top.v_align.is_some() {
                top.v_align
            } else {
                self.v_align
            },
            word_wrap: over_flag(self.word_wrap, top.word_wrap),
            text_rotation: over_text(self.text_rotation, &top.text_rotation),
            indent: over_text(self.indent, &top.indent),
            shrink_to_fit: over_flag(self.shrink_to_fit, top.shrink_to_fit),
            formatter: over_text(self.formatter, &top.formatter),
            borders: if top.borders.is_some() {
                copy_borders(&top.borders)
            } else {
                self.borders
            },
            locked: over_flag(self.locked, top.locked),
        }
    }
}

// ---- what styles say, with texts in place of strings

pub struct EdgeView {
    pub style: BorderLineStyle,
    pub color: Seq<char>,
}

pub struct BordersView {
    pub left: Option<EdgeView>,
    pub right: Option<EdgeView>,
    pub top: Option<EdgeView>,
    pub bottom: Option<EdgeView>,
    pub diagonal_down: Option<EdgeView>,
    pub diagonal_up: Option<EdgeView>,
}

/// What a style says.
pub struct StyleView {
    pub style_name: Option<Seq<char>>,
    pub bold: Option<bool>,
    pub italic: Option<bool>,
    pub underline: Option<bool>,
    pub strikethrough: Option<bool>,
    pub font_size: Option<Seq<char>>,
    pub font_family: Option<Seq<char>>,
    pub fore_color: Option<Seq<char>>,
    pub back_color: Option<Seq<char>>,
    pub h_align: Option<HAlign>,
    pub v_align: Option<VAlign>,
    pub word_wrap: Option<bool>,
    pub text_rotation: Option<Seq<char>>,
    pub indent: Option<Seq<char>>,
    pub shrink_to_fit: Option<bool>,
    pub formatter: Option<Seq<char>>,
    pub borders: Option<BordersView>,
    pub locked: Option<bool>,
}

/// The text of a string that may be there.
pub open spec fn text_view(o: Option<String>) -> Option<Seq<char>> {
    match o {
        Some(s) => Some(s@),
        None => None,
    }
}

pub open spec fn edge_view(o: Option<BorderEdge>) -> Option<EdgeView> {
    match o {
        Some(e) => Some(EdgeView { style: e.style, color: e.color@ }),
        None => None,
    }
}

impl Borders {
    pub open spec fn view(&self) -> BordersView {
        BordersView {
            left: edge_view(self.left),
            right: edge_view(self.right),
            top: edge_view(self.top),
            bottom: edge_view(self.bottom),
            diagonal_down: edge_view(self.diagonal_down),
            diagonal_up: edge_view(self.diagonal_up),
        }
    }
}

pub open spec fn borders_view(o: Option<Borders>) -> Option<BordersView> {
    match o {
        Some(b) => Some(b@),
        None => None,
    }
}

impl Style {
    /// What the style says.
    pub open spec fn view(&self) -> StyleView {
        StyleView {
            style_name: text_view(self.style_name),
            bold: self.bold,
            italic: self.italic,
            underline: self.underline,
            strikethrough: self.strikethrough,
            font_size: text_view(self.font_size),
            font_family: text_view(self.font_family),
            fore_color: text_view(self.fore_color),
            back_color: text_view(self.back_color),
            h_align: self.h_align,
            v_align: self.v_align,
            word_wrap: self.word_wrap,
            text_rotation: text_view(self.text_rotation),
            indent: text_view(self.indent),
            shrink_to_fit: self.shrink_to_fit,
            formatter: text_view(self.formatter),
            borders: borders_view(self.borders),
            locked: self.locked,
        }
    }
}

/// The style that says nothing.
pub open spec fn empty_view() -> StyleView {
    StyleView {
        style_name: None,
        bold: None,
        italic: None,
        underline: None,
        strikethrough: None,
        font_size: None,
        font_family: None,
        fore_color: None,
        back_color: None,
        h_align: None,
        v_align: None,
        word_wrap: None,
        text_rotation: None,
        indent: None,
        shrink_to_fit: None,
        formatter: None,
        borders: None,
        locked: None,
    }
}

/// A style says nothing when it leaves everything open.
pub proof fn empty_says_nothing(s: Style)
    ensures
        s@ == empty_view() <==> s == empty_style(),
{
}

} // verus!
