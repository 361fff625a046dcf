//! The page of a sheet as a spreadsheet file carries it.
use crate::numeral::{is_number_text, number_text};
use crate::scan::{attr, attr_of, first_open_tag};
use crate::snapshot::{FitToPages, Orientation, PageMargins, PageSetup, PrintTitles, RegionRect};
use crate::style::text_view;
use crate::text::same_text;
use crate::xlsx_read::open_tag_of;
use crate::xlsx_styles_read::{attr_number, number_attr};
use vstd::prelude::*;

verus! {

/// Margins, with texts in place of strings.
pub struct MarginsView {
    pub left: Seq<char>,
    pub right: Seq<char>,
    pub top: Seq<char>,
    pub bottom: Seq<char>,
}

/// A page, with texts in place of strings.
pub struct PageView {
    pub orientation: Option<Orientation>,
    pub paper_size: Option<Seq<char>>,
    pub margins: Option<MarginsView>,
    pub scale: Option<Seq<char>>,
    pub fit_to_pages: Option<FitToPages>,
    pub print_area: Option<RegionRect>,
    pub print_titles: Option<PrintTitles>,
}

pub open spec fn margins_view(m: PageMargins) -> MarginsView {
    MarginsView { left: m.left@, right: m.right@, top: m.top@, bottom: m.bottom@ }
}

pub open spec fn page_view(p: PageSetup) -> PageView {
    PageView {
        orientation: p.orientation,
        paper_size: text_view(p.paper_size),
        margins: match p.margins {
            Some(m) => Some(margins_view(m)),
            None => None,
        },
        scale: text_view(p.scale),
        fit_to_pages: p.fit_to_pages,
        print_area: p.print_area,
        print_titles: p.print_titles,
    }
}

pub open spec fn opt_page_view(p: Option<PageSetup>) -> Option<PageView> {
    match p {
        Some(x) => Some(page_view(x)),
        None => None,
    }
}

/// The number of an attribute, as its text.
pub open spec fn attr_numeral(tag: Seq<char>, name: Seq<char>) -> Option<Seq<char>> {
    match attr_of(tag, name) {
        Some(t) if is_number_text(t) => Some(t),
        _ => None,
    }
}

/// The margins of a page; none where one of them is no number.
pub open spec fn margins_read(tag: Seq<char>) -> Option<MarginsView> {
    match (
        attr_numeral(tag, "left"@),
        attr_numeral(tag, "right"@),
        attr_numeral(tag, "top"@),
        attr_numeral(tag, "bottom"@),
    ) {
        (Some(left), Some(right), Some(top), Some(bottom)) => Some(
            MarginsView { left, right, top, bottom },
        ),
        _ => None,
    }
}

/// The paper size of a number.
pub open spec fn paper_named(t: Seq<char>) -> Option<Seq<char>> {
    if t == "1"@ {
        Some("Letter"@)
    } else if t == "5"@ {
        Some("Legal"@)
    } else if t == "8"@ {
        Some("A3"@)
    } else if t == "9"@ {
        Some("A4"@)
    } else {
        None
    }
}

pub open spec fn orientation_named(t: Seq<char>) -> Option<Orientation> {
    if t == "landscape"@ {
        Some(Orientation::Landscape)
    } else if t == "portrait"@ {
        Some(Orientation::Portrait)
    } else {
        None
    }
}

/// How many pages a sheet is fitted to; nothing where its width or its height is not said.
pub open spec fn fit_read(tag: Seq<char>) -> Option<FitToPages> {
    match (attr_number(tag, "fitToWidth"@, 0xffff_ffff), attr_number(tag, "fitToHeight"@, 0xffff_ffff)) {
        (Some(w), Some(h)) => Some(FitToPages { width: w as u32, height: h as u32 }),
        _ => None,
    }
}

/// The page that the attributes of its tags say, where they stand.
pub open spec fn tags_page(margins: Option<Seq<char>>, setup: Option<Seq<char>>) -> PageView {
    PageView {
        orientation: match setup {
            Some(a) => match attr_of(a, "orientation"@) {
                Some(t) => orientation_named(t),
                None => None,
            },
            None => None,
        },
        paper_size: match setup {
            Some(a) => match attr_of(a, "paperSize"@) {
                Some(t) => paper_named(t),
                None => None,
            },
            None => None,
        },
        margins: match margins {
            Some(a) => margins_read(a),
            None => None,
        },
        scale: match setup {
            Some(a) => attr_numeral(a, "scale"@),
            None => None,
        },
        fit_to_pages: match setup {
            Some(a) => fit_read(a),
            None => None,
        },
        print_area: None,
        print_titles: None,
    }
}

/// The page of a sheet; none where it has neither margins nor a setup.
pub open spec fn page_read(xml: Seq<char>) -> Option<PageView> {
    let margins = first_open_tag(xml, "<pageMargins"@);
    let setup = first_open_tag(xml, "<pageSetup"@);
    if margins is None && setup is None {
        None
    } else {
        Some(tags_page(margins, setup))
    }
}

fn numeral_attr(tag: &str, name: &str) -> (r: Option<String>)
    ensures
        text_view(r) == attr_numeral(tag@, name@),
{
    match attr(tag, name) {
        Some(t) => if number_text(t.as_str()) {
            Some(t)
        } else {
            None
        },
        None => None,
    }
}

fn parse_margins(tag: &str) -> (r: Option<PageMargins>)
    ensures
        match margins_read(tag@) {
            Some(v) => r matches Some(m) && margins_view(m) == v,
            None => r is None,
        },
{
    let left = numeral_attr(tag, "left");
    let right = numeral_attr(tag, "right");
    let top = numeral_attr(tag, "top");
    let bottom = numeral_attr(tag, "bottom");
    match (left, right, top, bottom) {
        (Some(left), Some(right), Some(top), Some(bottom)) => Some(
            PageMargins { left, right, top, bottom },
        ),
        _ => None,
    }
}

fn paper_of(t: &str) -> (r: Option<String>)
    ensures
        text_view(r) == paper_named(t@),
{
    if same_text(t, "1") {
        Some("Letter".to_string())
    } else if same_text(t, "5") {
        Some("Legal".to_string())
    } else if same_text(t, "8") {
        Some("A3".to_string())
    } else if same_text(t, "9") {
        Some("A4".to_string())
    } else {
        None
    }
}

fn orientation_of(t: &str) -> (r: Option<Orientation>)
    ensures
        r == orientation_named(t@),
{
    if same_text(t, "landscape") {
        Some(Orientation::Landscape)
    } else if same_text(t, "portrait") {
        Some(Orientation::Portrait)
    } else {
        None
    }
}

fn parse_fit(tag: &str) -> (r: Option<FitToPages>)
    ensures
        r == fit_read(tag@),
{
    match (number_attr(tag, "fitToWidth", 0xffff_ffff), number_attr(tag, "fitToHeight", 0xffff_ffff)) {
        (Some(w), Some(h)) => Some(FitToPages { width: w as u32, height: h as u32 }),
        _ => None,
    }
}

/// The page of a sheet.
pub fn parse_page(xml: &Vec<char>) -> (r: Option<PageSetup>)
    ensures
        opt_page_view(r) == page_read(xml@),
{
    let margins: Option<String> = open_tag_of(xml, "<pageMargins");
    let setup: Option<String> = open_tag_of(xml, "<pageSetup");
    if margins.is_none() && setup.is_none() {
        return None;
    }
    let mut page = PageSetup {
        orientation: None,
        paper_size: None,
        margins: None,
        scale: None,
        fit_to_pages: None,
        print_area: None,
        print_titles: None,
    };
    if let Some(a) = &margins {
        page.margins = parse_margins(a.as_str());
    }
    if let Some(a) = &setup {
        if let Some(t) = attr(a.as_str(), "orientation") {
            page.orientation = orientation_of(t.as_str());
        }
        if let Some(t) = attr(a.as_str(), "paperSize") {
            page.paper_size = paper_of(t.as_str());
        }
        page.scale = numeral_attr(a.as_str(), "scale");
        page.fit_to_pages = parse_fit(a.as_str());
    }
    Some(page)
}

} // verus!
