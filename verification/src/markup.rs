//! How deep the elements of a page nest.
//!
//! The measure is taken on the text alone, and falls short by no more than the few
//! elements that every page has: every start tag counts until it is certain that the
//! element has ended, and so do the parts of a table that are left out. Elements can
//! end without a tag of their own, so an end tag ends what is open in an element only
//! where nothing came up since that could have ended the element before. Where a page
//! cannot be followed any more, every `<` counts.
use crate::text::{characters, contains_text, lower, same_text, views};
use vstd::prelude::*;

verus! {

/// Whether an element has no end tag.
pub open spec fn void(name: Seq<char>) -> bool {
    name == "area"@ || name == "base"@ || name == "basefont"@ || name == "bgsound"@
        || name == "br"@ || name == "col"@ || name == "embed"@ || name == "hr"@ || name == "img"@
        || name == "input"@ || name == "link"@ || name == "meta"@ || name == "param"@
        || name == "source"@ || name == "track"@ || name == "wbr"@
}

fn is_void(name: &str) -> (result: bool)
    ensures
        result == void(name@),
{
    same_text(name, "area") || same_text(name, "base") || same_text(name, "basefont")
        || same_text(name, "bgsound") || same_text(name, "br") || same_text(name, "col")
        || same_text(name, "embed") || same_text(name, "hr") || same_text(name, "img")
        || same_text(name, "input") || same_text(name, "link") || same_text(name, "meta")
        || same_text(name, "param") || same_text(name, "source") || same_text(name, "track")
        || same_text(name, "wbr")
}

/// Whether what an element holds is text only.
pub open spec fn verbatim(name: Seq<char>) -> bool {
    name == "iframe"@ || name == "noembed"@ || name == "noframes"@ || name == "noscript"@
        || name == "script"@ || name == "style"@ || name == "textarea"@ || name == "title"@
        || name == "xmp"@
}

fn is_verbatim(name: &str) -> (result: bool)
    ensures
        result == verbatim(name@),
{
    same_text(name, "iframe") || same_text(name, "noembed") || same_text(name, "noframes")
        || same_text(name, "noscript") || same_text(name, "script") || same_text(name, "style")
        || same_text(name, "textarea") || same_text(name, "title") || same_text(name, "xmp")
}

/// Whether an element belongs to a drawing.
pub open spec fn graphic(name: Seq<char>) -> bool {
    name == "animate"@ || name == "circle"@ || name == "clippath"@ || name == "defs"@
        || name == "desc"@ || name == "ellipse"@ || name == "fegaussianblur"@ || name == "feoffset"@
        || name == "filter"@ || name == "g"@ || name == "image"@ || name == "line"@
        || name == "lineargradient"@ || name == "marker"@ || name == "mask"@ || name == "path"@
        || name == "pattern"@ || name == "polygon"@ || name == "polyline"@
        || name == "radialgradient"@ || name == "rect"@ || name == "script"@ || name == "stop"@
        || name == "style"@ || name == "svg"@ || name == "symbol"@ || name == "text"@
        || name == "textpath"@ || name == "title"@ || name == "tspan"@ || name == "use"@
}

fn is_graphic(name: &str) -> (result: bool)
    ensures
        result == graphic(name@),
{
    same_text(name, "animate") || same_text(name, "circle") || same_text(name, "clippath")
        || same_text(name, "defs") || same_text(name, "desc") || same_text(name, "ellipse")
        || same_text(name, "fegaussianblur") || same_text(name, "feoffset")
        || same_text(name, "filter") || same_text(name, "g") || same_text(name, "image")
        || same_text(name, "line") || same_text(name, "lineargradient") || same_text(name, "marker")
        || same_text(name, "mask") || same_text(name, "path") || same_text(name, "pattern")
        || same_text(name, "polygon") || same_text(name, "polyline")
        || same_text(name, "radialgradient") || same_text(name, "rect") || same_text(name, "script")
        || same_text(name, "stop") || same_text(name, "style") || same_text(name, "svg")
        || same_text(name, "symbol") || same_text(name, "text") || same_text(name, "textpath")
        || same_text(name, "title") || same_text(name, "tspan") || same_text(name, "use")
}

/// Whether the start of an element ends a paragraph, and its end whatever is open in
/// it.
pub open spec fn block(name: Seq<char>) -> bool {
    name == "address"@ || name == "article"@ || name == "aside"@ || name == "blockquote"@
        || name == "center"@ || name == "details"@ || name == "dir"@ || name == "div"@
        || name == "dl"@ || name == "fieldset"@ || name == "figcaption"@
        || name == "figure"@ || name == "footer"@ || name == "header"@ || name == "hgroup"@
        || name == "main"@ || name == "menu"@ || name == "nav"@ || name == "ol"@ || name == "pre"@
        || name == "section"@ || name == "summary"@ || name == "ul"@
}

fn is_block(name: &str) -> (result: bool)
    ensures
        result == block(name@),
{
    same_text(name, "address") || same_text(name, "article") || same_text(name, "aside")
        || same_text(name, "blockquote") || same_text(name, "center") || same_text(name, "details")
        || same_text(name, "dir") || same_text(name, "div")
        || same_text(name, "dl") || same_text(name, "fieldset") || same_text(name, "figcaption")
        || same_text(name, "figure") || same_text(name, "footer") || same_text(name, "header")
        || same_text(name, "hgroup") || same_text(name, "main") || same_text(name, "menu")
        || same_text(name, "nav") || same_text(name, "ol") || same_text(name, "pre")
        || same_text(name, "section") || same_text(name, "summary") || same_text(name, "ul")
}

/// Whether an element is a heading.
pub open spec fn heading(name: Seq<char>) -> bool {
    name == "h1"@ || name == "h2"@ || name == "h3"@ || name == "h4"@ || name == "h5"@
        || name == "h6"@
}

fn is_heading(name: &str) -> (result: bool)
    ensures
        result == heading(name@),
{
    same_text(name, "h1") || same_text(name, "h2") || same_text(name, "h3")
        || same_text(name, "h4") || same_text(name, "h5") || same_text(name, "h6")
}

/// Whether the start of an element ends another of the same name right before it.
pub open spec fn item(name: Seq<char>) -> bool {
    name == "li"@ || name == "p"@
}

fn is_item(name: &str) -> (result: bool)
    ensures
        result == item(name@),
{
    same_text(name, "li") || same_text(name, "p")
}

/// Whether an element is a term of a list, or what is said of one.
pub open spec fn entry(name: Seq<char>) -> bool {
    name == "dd"@ || name == "dt"@
}

fn is_entry(name: &str) -> (result: bool)
    ensures
        result == entry(name@),
{
    same_text(name, "dd") || same_text(name, "dt")
}

/// Whether an element holds the items of a list.
pub open spec fn list(name: Seq<char>) -> bool {
    name == "dir"@ || name == "dl"@ || name == "menu"@ || name == "ol"@ || name == "ul"@
}

fn is_list(name: &str) -> (result: bool)
    ensures
        result == list(name@),
{
    same_text(name, "dir") || same_text(name, "dl") || same_text(name, "menu")
        || same_text(name, "ol") || same_text(name, "ul")
}

/// Whether an element is a cell of a table.
pub open spec fn cell(name: Seq<char>) -> bool {
    name == "td"@ || name == "th"@
}

fn is_cell(name: &str) -> (result: bool)
    ensures
        result == cell(name@),
{
    same_text(name, "td") || same_text(name, "th")
}

/// Whether an element holds rows of a table.
pub open spec fn section(name: Seq<char>) -> bool {
    name == "tbody"@ || name == "tfoot"@ || name == "thead"@
}

fn is_section(name: &str) -> (result: bool)
    ensures
        result == section(name@),
{
    same_text(name, "tbody") || same_text(name, "tfoot") || same_text(name, "thead")
}

/// Whether an element stands before the rows of a table.
pub open spec fn table_head(name: Seq<char>) -> bool {
    name == "caption"@ || name == "col"@ || name == "colgroup"@
}

fn is_table_head(name: &str) -> (result: bool)
    ensures
        result == table_head(name@),
{
    same_text(name, "caption") || same_text(name, "col") || same_text(name, "colgroup")
}

/// Whether an element is what a selection holds.
pub open spec fn choice(name: Seq<char>) -> bool {
    name == "optgroup"@ || name == "option"@
}

fn is_choice(name: &str) -> (result: bool)
    ensures
        result == choice(name@),
{
    same_text(name, "optgroup") || same_text(name, "option")
}

/// Whether an element is a part of a table whose start ends a cell.
pub open spec fn table_part(name: Seq<char>) -> bool {
    cell(name) || name == "tr"@ || section(name)
}

fn is_table_part(name: &str) -> (result: bool)
    ensures
        result == table_part(name@),
{
    is_cell(name) || same_text(name, "tr") || is_section(name)
}

/// Whether an element starts that ends others that are not followed here.
pub open spec fn intrusive(name: Seq<char>) -> bool {
    name == "rb"@ || name == "rp"@ || name == "rt"@ || name == "rtc"@
}

fn is_intrusive(name: &str) -> (result: bool)
    ensures
        result == intrusive(name@),
{
    same_text(name, "rb") || same_text(name, "rp") || same_text(name, "rt")
        || same_text(name, "rtc")
}

/// Whether an end tag can end blocks, items, headings or parts of tables.
pub open spec fn weighty(name: Seq<char>) -> bool {
    name == "address"@ || name == "applet"@ || name == "article"@ || name == "aside"@
        || name == "blockquote"@ || name == "body"@ || name == "button"@ || name == "caption"@
        || name == "center"@ || name == "col"@ || name == "colgroup"@ || name == "dd"@
        || name == "details"@ || name == "dialog"@ || name == "dir"@ || name == "div"@
        || name == "dl"@ || name == "dt"@ || name == "fieldset"@ || name == "figcaption"@
        || name == "figure"@ || name == "footer"@ || name == "form"@ || name == "frameset"@
        || name == "h1"@ || name == "h2"@ || name == "h3"@ || name == "h4"@ || name == "h5"@
        || name == "h6"@ || name == "head"@ || name == "header"@ || name == "hgroup"@
        || name == "html"@ || name == "li"@ || name == "listing"@ || name == "main"@
        || name == "marquee"@ || name == "menu"@ || name == "nav"@ || name == "object"@
        || name == "ol"@ || name == "pre"@ || name == "search"@ || name == "section"@
        || name == "select"@ || name == "summary"@ || name == "table"@ || name == "tbody"@
        || name == "td"@ || name == "template"@ || name == "tfoot"@ || name == "th"@
        || name == "thead"@ || name == "tr"@ || name == "ul"@
}

fn is_weighty(name: &str) -> (result: bool)
    ensures
        result == weighty(name@),
{
    same_text(name, "address") || same_text(name, "applet") || same_text(name, "article")
        || same_text(name, "aside") || same_text(name, "blockquote") || same_text(name, "body")
        || same_text(name, "button") || same_text(name, "caption") || same_text(name, "center")
        || same_text(name, "col") || same_text(name, "colgroup") || same_text(name, "dd")
        || same_text(name, "details") || same_text(name, "dialog") || same_text(name, "dir")
        || same_text(name, "div") || same_text(name, "dl") || same_text(name, "dt")
        || same_text(name, "fieldset") || same_text(name, "figcaption")
        || same_text(name, "figure") || same_text(name, "footer") || same_text(name, "form")
        || same_text(name, "frameset") || same_text(name, "h1") || same_text(name, "h2")
        || same_text(name, "h3") || same_text(name, "h4") || same_text(name, "h5")
        || same_text(name, "h6") || same_text(name, "head") || same_text(name, "header")
        || same_text(name, "hgroup") || same_text(name, "html") || same_text(name, "li")
        || same_text(name, "listing") || same_text(name, "main") || same_text(name, "marquee")
        || same_text(name, "menu") || same_text(name, "nav") || same_text(name, "object")
        || same_text(name, "ol") || same_text(name, "pre") || same_text(name, "search")
        || same_text(name, "section") || same_text(name, "select") || same_text(name, "summary")
        || same_text(name, "table") || same_text(name, "tbody") || same_text(name, "td")
        || same_text(name, "template") || same_text(name, "tfoot") || same_text(name, "th")
        || same_text(name, "thead") || same_text(name, "tr") || same_text(name, "ul")
}

/// Whether an element can go on after the end of the one around it.
pub open spec fn formatting(name: Seq<char>) -> bool {
    name == "a"@ || name == "b"@ || name == "big"@ || name == "code"@ || name == "em"@
        || name == "font"@ || name == "i"@ || name == "nobr"@ || name == "s"@ || name == "small"@
        || name == "strike"@ || name == "strong"@ || name == "tt"@ || name == "u"@
}

fn is_formatting(name: &str) -> (result: bool)
    ensures
        result == formatting(name@),
{
    same_text(name, "a") || same_text(name, "b") || same_text(name, "big")
        || same_text(name, "code") || same_text(name, "em") || same_text(name, "font")
        || same_text(name, "i") || same_text(name, "nobr") || same_text(name, "s")
        || same_text(name, "small") || same_text(name, "strike") || same_text(name, "strong")
        || same_text(name, "tt") || same_text(name, "u")
}

/// Whether what can go on after the end of an element around it does not where one
/// of these ends, and may where one of these is left open in a cell.
pub open spec fn marker(name: Seq<char>) -> bool {
    name == "applet"@ || name == "caption"@ || name == "marquee"@ || name == "object"@ || name
        == "template"@
}

fn is_marker(name: &str) -> (result: bool)
    ensures
        result == marker(name@),
{
    same_text(name, "applet") || same_text(name, "caption") || same_text(name, "marquee")
        || same_text(name, "object") || same_text(name, "template")
}

/// Whether an element keeps the ends of those around it from being seen in it.
pub open spec fn barrier(name: Seq<char>) -> bool {
    name == "applet"@ || name == "caption"@ || name == "marquee"@ || name == "object"@
        || name == "select"@ || name == "table"@ || name == "td"@ || name == "template"@
        || name == "th"@
}

fn is_barrier(name: &str) -> (result: bool)
    ensures
        result == barrier(name@),
{
    same_text(name, "applet") || same_text(name, "caption") || same_text(name, "marquee")
        || same_text(name, "object") || same_text(name, "select") || same_text(name, "table")
        || same_text(name, "td") || same_text(name, "template") || same_text(name, "th")
}

/// Where in a page a character stands.
#[derive(Clone, Copy, Debug, PartialEq, Eq, Structural)]
pub enum Place {
    Text,
    /// After `<`.
    Open,
    /// After `<!`.
    Bang,
    /// After `<!-`.
    BangDash,
    /// After `<!--`.
    CommentStart,
    /// After `<!---`.
    CommentStartDash,
    /// In a comment, after so many dashes, two at most.
    Comment { dashes: u8 },
    /// In a comment, after `--!`.
    CommentBang,
    /// In what is taken for a comment up to the next `>`.
    Bogus,
    /// After `</`.
    Close,
    Name,
    /// In a tag, outside its attributes; right after a slash or not.
    Gap { slash: bool },
    Attribute,
    AfterAttribute,
    /// After the equals sign of an attribute.
    Value,
    DoubleQuoted,
    SingleQuoted,
    Unquoted,
    /// In an element that holds text only.
    Verbatim,
    /// After `<` in such an element.
    VerbatimOpen,
    /// After `</` and letters in such an element.
    VerbatimClose,
    /// After `<!` in a script.
    EscapeStart,
    /// After `<!-` in a script.
    EscapeStartDash,
    /// In what `<!--` opens in a script, and once more in what `<script` opens in it;
    /// after so many dashes, two at most.
    Escaped { twice: bool, dashes: u8 },
    /// After `<` there.
    EscapedOpen { twice: bool },
    /// After `<` and letters there, or after `</` and letters where it is the second.
    EscapedName { twice: bool },
    /// After `</` and letters where it is the first.
    EscapedClose,
    /// Where it is not certain any more what a character means.
    Lost,
}

/// How far a page has been read.
#[derive(Debug)]
pub struct Scan {
    place: Place,
    name: String,
    ending: bool,
    open: Vec<String>,
    doubted: usize,
    drawing: bool,
    deepest: usize,
}

/// What a [`Scan`] stands for.
#[verifier::ext_equal]
pub struct ScanView {
    pub place: Place,
    /// The name of the tag that is being read, as far as it was.
    pub name: Seq<char>,
    /// Whether it is an end tag.
    pub ending: bool,
    /// The elements that may be open.
    pub open: Seq<Seq<char>>,
    /// How many of them, the outer ones, may have ended since.
    pub doubted: nat,
    /// Whether the innermost element certainly belongs to a drawing.
    pub drawing: bool,
    /// How many elements were open at most.
    pub deepest: nat,
}

impl View for Scan {
    type V = ScanView;

    closed spec fn view(&self) -> ScanView {
        ScanView {
            place: self.place,
            name: self.name@,
            ending: self.ending,
            open: views(self.open@),
            doubted: self.doubted as nat,
            drawing: self.drawing,
            deepest: self.deepest as nat,
        }
    }
}

/// Whether a character separates the parts of a tag.
pub open spec fn gap(c: char) -> bool {
    c == ' ' || c == '\t' || c == '\n' || c == '\r' || c == '\u{c}'
}

/// Whether a character is an ASCII letter.
pub open spec fn letter(c: char) -> bool {
    'a' <= c <= 'z' || 'A' <= c <= 'Z'
}

/// Where an end tag with a name leads: how many elements stay open. It ends whatever
/// is open in the innermost element of that name, unless something is in between
/// that keeps it from being seen or goes on, or the element is one of the outer
/// `doubted` elements.
pub open spec fn left_open(
    open: Seq<Seq<char>>,
    doubted: nat,
    name: Seq<char>,
    count: nat,
) -> nat
    decreases count,
{
    if count <= doubted || count > open.len() {
        open.len()
    } else if open[count - 1] == name {
        (count - 1) as nat
    } else if formatting(open[count - 1]) || barrier(open[count - 1]) {
        open.len()
    } else {
        left_open(open, doubted, name, (count - 1) as nat)
    }
}

/// Whether the innermost of the first `count` elements is certainly a table that is
/// open, or a part of one that holds cells.
pub open spec fn in_rows(open: Seq<Seq<char>>, doubted: nat, count: nat) -> bool
    decreases count,
{
    doubted < count <= open.len() && (open[count - 1] == "table"@ || (open[count - 1] == "tr"@
        || section(open[count - 1])) && in_rows(open, doubted, (count - 1) as nat))
}

/// How many elements are around the innermost cell, where it is certainly open, no
/// table is open in it and nothing in it goes on after it; otherwise how many are
/// open.
pub open spec fn around_cell(open: Seq<Seq<char>>, doubted: nat, count: nat) -> nat
    decreases count,
{
    if count <= doubted || count > open.len() || open[count - 1] == "table"@ || marker(
        open[count - 1],
    ) {
        open.len()
    } else if cell(open[count - 1]) {
        if in_rows(open, doubted, (count - 1) as nat) {
            (count - 1) as nat
        } else {
            open.len()
        }
    } else {
        around_cell(open, doubted, (count - 1) as nat)
    }
}

/// How many elements stay open after an end tag that is not that of the innermost.
pub open spec fn staying(open: Seq<Seq<char>>, doubted: nat, name: Seq<char>) -> nat {
    let cells = around_cell(open, doubted, open.len());
    let rows = left_open(open, doubted, name, cells);
    if cell(name) {
        if cells < open.len() && open[cells as int] == name {
            cells
        } else {
            open.len()
        }
    } else if name == "table"@ {
        rows
    } else if name == "tr"@ || section(name) {
        if rows < open.len() && in_rows(open, doubted, rows + 1) {
            rows
        } else {
            open.len()
        }
    } else if block(name) || name == "select"@ {
        left_open(open, doubted, name, open.len())
    } else {
        open.len()
    }
}

impl ScanView {
    /// Nothing was read.
    pub open spec fn start() -> ScanView {
        ScanView {
            place: Place::Text,
            name: Seq::empty(),
            ending: false,
            open: Seq::empty(),
            doubted: 0,
            drawing: false,
            deepest: 0,
        }
    }

    /// Read on at another place.
    pub open spec fn at(self, place: Place) -> ScanView {
        ScanView { place, ..self }
    }

    /// The name with one more character.
    pub open spec fn named(self, c: char, place: Place) -> ScanView {
        ScanView { place, name: self.name.push(lower(c)), ..self }
    }

    /// Whether the innermost element has a name.
    pub open spec fn within(self, name: Seq<char>) -> bool {
        self.open.len() > 0 && self.open.last() == name
    }

    /// Whether an element may be open in which other rules hold.
    pub open spec fn foreign(self) -> bool {
        self.open.contains("svg"@) || self.open.contains("math"@)
    }

    /// Whether an element may be open in which it is not followed what ends what.
    pub open spec fn unclear(self) -> bool {
        self.foreign() || self.open.contains("template"@)
    }

    /// Whether no table is open in the innermost cell.
    pub open spec fn in_cell(self) -> bool {
        ||| self.open.len() > 0 && cell(self.open.last())
        ||| around_cell(self.open, self.doubted, self.open.len()) < self.open.len()
    }

    /// Whether an element may be open that can go on after the end of the one around
    /// it.
    pub open spec fn formatted(self) -> bool {
        exists|i: int| 0 <= i < self.open.len() && formatting(#[trigger] self.open[i])
    }

    /// Whether a heading may be open.
    pub open spec fn in_heading(self) -> bool {
        self.open.contains("h1"@) || self.open.contains("h2"@) || self.open.contains("h3"@)
            || self.open.contains("h4"@) || self.open.contains("h5"@) || self.open.contains("h6"@)
    }

    /// Whether the start of an element could end others that are not the innermost.
    pub open spec fn unsettled(self, name: Seq<char>) -> bool {
        ||| self.unclear()
        ||| intrusive(name)
        ||| name == "button"@ && self.open.contains("button"@)
        ||| (name == "hr"@ || name == "input"@ || name == "select"@) && self.open.contains(
            "select"@,
        )
        ||| choice(name) && !self.within("select"@) && !self.within("optgroup"@)
        ||| name == "table"@ && self.open.contains("table"@) && !self.in_cell()
        ||| heading(name) && self.in_heading()
        ||| name == "li"@ && self.open.contains("li"@) && !(self.open.len() > 0 && list(
            self.open.last(),
        ))
        ||| entry(name) && (self.open.contains("dd"@) || self.open.contains("dt"@)) && !(
        self.open.len() > 0 && list(self.open.last()))
        ||| table_head(name) && !self.within("table"@) && !self.within("colgroup"@)
        ||| table_part(name) && !(self.open.len() > 0 && (self.open.last() == "table"@ || section(
            self.open.last(),
        ) || self.open.last() == "tr"@))
    }

    /// Any element may have ended.
    pub open spec fn doubt(self) -> ScanView {
        ScanView { doubted: self.open.len(), ..self }
    }

    /// So many elements are open still.
    pub open spec fn cut(self, count: nat) -> ScanView {
        ScanView {
            open: self.open.take(count as int),
            doubted: if self.doubted > count {
                count
            } else {
                self.doubted
            },
            ..self
        }
    }

    /// One more element is open.
    pub open spec fn pushed(self, name: Seq<char>) -> ScanView {
        let open = self.open.push(name);
        ScanView {
            open,
            deepest: if open.len() > self.deepest {
                open.len()
            } else {
                self.deepest
            },
            ..self
        }
    }

    /// The innermost element is open no more.
    pub open spec fn popped(self) -> ScanView {
        self.cut((self.open.len() - 1) as nat)
    }

    /// Whether the start of an element certainly ends the innermost.
    pub open spec fn ends_innermost(self, name: Seq<char>) -> bool {
        &&& self.open.len() > 0
        &&& {
            let inner = self.open.last();
            ||| item(name) && inner == name
            ||| entry(name) && entry(inner)
            ||| inner == "p"@ && (block(name) || heading(name))
            ||| table_part(name) && (cell(inner) || inner == "colgroup"@)
            ||| choice(name) && inner == "option"@ && !self.formatted()
        }
    }

    /// Whether the start of an element certainly ends an item with a paragraph in it.
    pub open spec fn ends_item(self, name: Seq<char>) -> bool {
        let count = self.open.len() - 2;
        &&& self.doubted <= count
        &&& self.within("p"@)
        &&& name == "li"@ && self.open[count] == name || entry(name) && entry(self.open[count])
    }

    /// What the start of an element makes certain to have ended: the innermost, or an
    /// item or a cell with what is open in it, or also the row, or both with what holds
    /// the row.
    pub open spec fn tidied(self, name: Seq<char>) -> ScanView {
        if self.unclear() {
            self
        } else {
            let cells = around_cell(self.open, self.doubted, self.open.len());
            let first = if table_part(name) && cells < self.open.len() {
                self.cut(cells)
            } else if self.ends_item(name) {
                self.cut((self.open.len() - 2) as nat)
            } else if self.ends_innermost(name) {
                self.popped()
            } else {
                self
            };
            let second = if (name == "tr"@ || section(name)) && first.within("tr"@) {
                first.popped()
            } else {
                first
            };
            if section(name) && second.open.len() > 0 && section(second.open.last()) {
                second.popped()
            } else {
                second
            }
        }
    }

    /// With the parts of a table that a part of it starts where they are left out.
    pub open spec fn supplied(self, name: Seq<char>) -> ScanView {
        let held = if (cell(name) || name == "tr"@) && self.within("table"@) {
            self.pushed("tbody"@)
        } else {
            self
        };
        if cell(name) && held.open.len() > 0 && section(held.open.last()) {
            held.pushed("tr"@)
        } else {
            held
        }
    }

    /// What an element that starts leaves of what is certain.
    pub open spec fn met(self, name: Seq<char>) -> ScanView {
        if self.unsettled(name) {
            self.doubt()
        } else {
            self
        }
    }

    /// After a start tag.
    pub open spec fn started(self, closed: bool) -> ScanView {
        let name = self.name;
        let captioned = self.within("title"@) || self.within("desc"@);
        let drawing = name == "svg"@ || self.drawing && graphic(name) && !captioned;
        if name == "frameset"@ || name == "plaintext"@ || name == "col"@ && self.unclear() {
            self.pushed(name).at(Place::Lost)
        } else if closed && (name == "svg"@ || drawing && self.drawing) {
            self.at(Place::Text)
        } else if void(name) && !self.foreign() {
            self.met(name).at(Place::Text)
        } else {
            let place = if !verbatim(name) || self.drawing && drawing {
                Place::Text
            } else if self.foreign() {
                Place::Lost
            } else {
                Place::Verbatim
            };
            let more = self.tidied(name).met(name).supplied(name).pushed(name).at(place);
            if name == "select"@ && self.open.contains(name) {
                ScanView { drawing, ..more.doubt() }
            } else {
                ScanView { drawing, ..more }
            }
        }
    }

    /// After an end tag.
    pub open spec fn ended(self) -> ScanView {
        let name = self.name;
        let drawing = self.drawing && graphic(name) && name != "svg"@;
        let count = staying(self.open, self.doubted, name);
        let after = if self.within(name) {
            if self.unclear() || name == "form"@ && self.popped().open.contains(name) {
                self.popped().doubt()
            } else {
                self.popped()
            }
        } else if self.unclear() {
            self.doubt()
        } else if count < self.open.len() {
            self.cut(count)
        } else if weighty(name) {
            self.doubt()
        } else {
            self
        };
        ScanView { drawing, ..after.at(Place::Text) }
    }

    /// After a tag.
    #[verifier::opaque]
    pub open spec fn tagged(self, closed: bool) -> ScanView {
        if self.ending {
            self.ended()
        } else {
            self.started(closed)
        }
    }

    /// A tag begins.
    pub open spec fn opened(self, ending: bool) -> ScanView {
        ScanView { name: Seq::empty(), ending, ..self }
    }

    /// After a character in an element that holds text only.
    pub open spec fn in_verbatim(self, c: char) -> ScanView {
        if c == '<' {
            self.at(Place::VerbatimOpen)
        } else {
            self.at(Place::Verbatim)
        }
    }

    /// After a character in what is escaped in a script.
    pub open spec fn in_escaped(self, twice: bool, dashes: u8, c: char) -> ScanView {
        if c == '-' {
            self.at(Place::Escaped { twice, dashes: more_dashes(dashes) })
        } else if c == '<' {
            self.at(Place::EscapedOpen { twice })
        } else if c == '>' && dashes >= 2 {
            self.at(Place::Verbatim)
        } else {
            self.at(Place::Escaped { twice, dashes: 0 })
        }
    }

    /// After one more character.
    pub open spec fn after(self, c: char) -> ScanView {
        match self.place {
            Place::Text => if c == '<' {
                self.at(Place::Open)
            } else {
                self
            },
            Place::Open => if c == '!' {
                self.at(Place::Bang)
            } else if c == '/' {
                self.at(Place::Close)
            } else if c == '?' {
                self.at(Place::Bogus)
            } else if letter(c) {
                self.opened(false).named(c, Place::Name)
            } else if c == '<' {
                self
            } else {
                self.at(Place::Text)
            },
            Place::Bang => if c == '-' {
                self.at(Place::BangDash)
            } else if c == '[' && self.foreign() {
                self.at(Place::Lost)
            } else if c == '>' {
                self.at(Place::Text)
            } else {
                self.at(Place::Bogus)
            },
            Place::BangDash => if c == '-' {
                self.at(Place::CommentStart)
            } else if c == '>' {
                self.at(Place::Text)
            } else {
                self.at(Place::Bogus)
            },
            Place::CommentStart => if c == '-' {
                self.at(Place::CommentStartDash)
            } else if c == '>' {
                self.at(Place::Text)
            } else {
                self.at(Place::Comment { dashes: 0 })
            },
            Place::CommentStartDash => if c == '-' {
                self.at(Place::Comment { dashes: 2 })
            } else if c == '>' {
                self.at(Place::Text)
            } else {
                self.at(Place::Comment { dashes: 0 })
            },
            Place::Comment { dashes } => if c == '-' {
                self.at(Place::Comment { dashes: more_dashes(dashes) })
            } else if c == '>' && dashes >= 2 {
                self.at(Place::Text)
            } else if c == '!' && dashes >= 2 {
                self.at(Place::CommentBang)
            } else {
                self.at(Place::Comment { dashes: 0 })
            },
            Place::CommentBang => if c == '-' {
                self.at(Place::Comment { dashes: 1 })
            } else if c == '>' {
                self.at(Place::Text)
            } else {
                self.at(Place::Comment { dashes: 0 })
            },
            Place::Bogus => if c == '>' {
                self.at(Place::Text)
            } else {
                self
            },
            Place::Close => if letter(c) {
                self.opened(true).named(c, Place::Name)
            } else if c == '>' {
                self.at(Place::Text)
            } else {
                self.at(Place::Bogus)
            },
            Place::Name => if gap(c) {
                self.at(Place::Gap { slash: false })
            } else if c == '/' {
                self.at(Place::Gap { slash: true })
            } else if c == '>' {
                self.tagged(false)
            } else {
                self.named(c, Place::Name)
            },
            Place::Gap { slash } => if c == '>' {
                self.tagged(slash)
            } else if c == '/' {
                self.at(Place::Gap { slash: true })
            } else if gap(c) {
                self.at(Place::Gap { slash: false })
            } else {
                self.at(Place::Attribute)
            },
            Place::Attribute | Place::AfterAttribute => if c == '>' {
                self.tagged(false)
            } else if c == '/' {
                self.at(Place::Gap { slash: true })
            } else if gap(c) {
                self.at(Place::AfterAttribute)
            } else if c == '=' {
                self.at(Place::Value)
            } else {
                self.at(Place::Attribute)
            },
            Place::Value => if c == '>' {
                self.tagged(false)
            } else if gap(c) {
                self
            } else if c == '"' {
                self.at(Place::DoubleQuoted)
            } else if c == '\'' {
                self.at(Place::SingleQuoted)
            } else {
                self.at(Place::Unquoted)
            },
            Place::DoubleQuoted => if c == '"' {
                self.at(Place::Gap { slash: false })
            } else {
                self
            },
            Place::SingleQuoted => if c == '\'' {
                self.at(Place::Gap { slash: false })
            } else {
                self
            },
            Place::Unquoted => if c == '>' {
                self.tagged(false)
            } else if gap(c) {
                self.at(Place::Gap { slash: false })
            } else {
                self
            },
            Place::Verbatim => self.in_verbatim(c),
            Place::VerbatimOpen => if c == '/' {
                self.opened(true).at(Place::VerbatimClose)
            } else if c == '!' && self.within("script"@) {
                self.at(Place::EscapeStart)
            } else {
                self.in_verbatim(c)
            },
            Place::VerbatimClose => if letter(c) {
                self.named(c, Place::VerbatimClose)
            } else if self.within(self.name) && c == '>' {
                self.tagged(false)
            } else if self.within(self.name) && gap(c) {
                self.at(Place::Gap { slash: false })
            } else if self.within(self.name) && c == '/' {
                self.at(Place::Gap { slash: true })
            } else {
                self.in_verbatim(c)
            },
            Place::EscapeStart => if c == '-' {
                self.at(Place::EscapeStartDash)
            } else {
                self.in_verbatim(c)
            },
            Place::EscapeStartDash => if c == '-' {
                self.at(Place::Escaped { twice: false, dashes: 2 })
            } else {
                self.in_verbatim(c)
            },
            Place::Escaped { twice, dashes } => self.in_escaped(twice, dashes, c),
            Place::EscapedOpen { twice } => if c == '/' {
                self.opened(true).at(
                    if twice {
                        Place::EscapedName { twice }
                    } else {
                        Place::EscapedClose
                    },
                )
            } else if letter(c) && !twice {
                self.opened(false).named(c, Place::EscapedName { twice })
            } else {
                self.in_escaped(twice, 0, c)
            },
            Place::EscapedName { twice } => if letter(c) {
                self.named(c, Place::EscapedName { twice })
            } else if gap(c) || c == '/' || c == '>' {
                self.at(Place::Escaped { twice: twice != (self.name == "script"@), dashes: 0 })
            } else {
                self.in_escaped(twice, 0, c)
            },
            Place::EscapedClose => if letter(c) {
                self.named(c, Place::EscapedClose)
            } else if self.within(self.name) && c == '>' {
                self.tagged(false)
            } else if self.within(self.name) && gap(c) {
                self.at(Place::Gap { slash: false })
            } else if self.within(self.name) && c == '/' {
                self.at(Place::Gap { slash: true })
            } else {
                self.in_escaped(false, 0, c)
            },
            Place::Lost => if c == '<' {
                self.pushed(Seq::empty())
            } else {
                self
            },
        }
    }
}

/// One more dash, where two are as good as more.
pub open spec fn more_dashes(dashes: u8) -> u8 {
    if dashes == 0 {
        1
    } else {
        2
    }
}

/// How far the first `count` characters of a page have been read.
pub open spec fn scanned(page: Seq<char>, count: nat) -> ScanView
    decreases count,
{
    if count == 0 {
        ScanView::start()
    } else {
        scanned(page, (count - 1) as nat).after(page[count - 1])
    }
}

/// How deep the elements of a page nest at most.
pub open spec fn nesting(page: Seq<char>) -> nat {
    scanned(page, page.len()).deepest
}

impl Scan {
    fn new() -> (scan: Self)
        ensures
            scan@ == ScanView::start(),
    {
        let scan = Scan {
            place: Place::Text,
            name: String::new(),
            ending: false,
            open: Vec::new(),
            doubted: 0,
            drawing: false,
            deepest: 0,
        };
        assert(scan@ =~~= ScanView::start());
        scan
    }

    fn within(&self, name: &str) -> (result: bool)
        ensures
            result == self@.within(name@),
    {
        if self.open.len() == 0 {
            return false;
        }
        assert(views(self.open@).last() == self.open@.last()@);
        same_text(self.open[self.open.len() - 1].as_str(), name)
    }

    fn foreign(&self) -> (result: bool)
        ensures
            result == self@.foreign(),
    {
        contains_text(&self.open, "svg") || contains_text(&self.open, "math")
    }

    fn formatted(&self) -> (result: bool)
        ensures
            result == self@.formatted(),
    {
        let ghost all = views(self.open@);
        let mut i: usize = 0;
        while i < self.open.len()
            invariant
                i <= self.open.len(),
                all == views(self.open@),
                forall|j: int| 0 <= j < i ==> !formatting(#[trigger] all[j]),
            decreases self.open.len() - i,
        {
            assert(all[i as int] == self.open[i as int]@);
            if is_formatting(self.open[i].as_str()) {
                assert(formatting(self@.open[i as int]));
                return true;
            }
            i += 1;
        }
        false
    }

    fn in_rows(&self, count: usize) -> (result: bool)
        ensures
            result == in_rows(self@.open, self@.doubted, count as nat),
    {
        let ghost all = views(self.open@);
        if count > self.open.len() {
            return false;
        }
        let mut left: usize = count;
        while left > self.doubted
            invariant
                left <= count <= self.open.len(),
                all == views(self.open@),
                in_rows(all, self.doubted as nat, count as nat) == in_rows(
                    all,
                    self.doubted as nat,
                    left as nat,
                ),
            decreases left,
        {
            assert(all[left - 1] == self.open[left - 1]@);
            let inner = self.open[left - 1].as_str();
            if same_text(inner, "table") {
                return true;
            }
            if !(same_text(inner, "tr") || is_section(inner)) {
                return false;
            }
            left -= 1;
        }
        false
    }

    fn around_cell(&self) -> (count: usize)
        ensures
            count == around_cell(self@.open, self@.doubted, self@.open.len()),
            count <= self@.open.len(),
    {
        let ghost all = views(self.open@);
        let mut count: usize = self.open.len();
        while count > self.doubted
            invariant
                count <= self.open.len(),
                all == views(self.open@),
                around_cell(all, self.doubted as nat, all.len()) == around_cell(
                    all,
                    self.doubted as nat,
                    count as nat,
                ),
            decreases count,
        {
            assert(all[count - 1] == self.open[count - 1]@);
            let inner = self.open[count - 1].as_str();
            if same_text(inner, "table") || is_marker(inner) {
                return self.open.len();
            }
            if is_cell(inner) {
                return if self.in_rows(count - 1) {
                    count - 1
                } else {
                    self.open.len()
                };
            }
            count -= 1;
        }
        self.open.len()
    }

    fn in_cell(&self) -> (result: bool)
        ensures
            result == self@.in_cell(),
    {
        if self.open.len() == 0 {
            return false;
        }
        assert(views(self.open@).last() == self.open@.last()@);
        is_cell(self.open[self.open.len() - 1].as_str()) || self.around_cell() < self.open.len()
    }

    fn unclear(&self) -> (result: bool)
        ensures
            result == self@.unclear(),
    {
        self.foreign() || contains_text(&self.open, "template")
    }

    fn in_heading(&self) -> (result: bool)
        ensures
            result == self@.in_heading(),
    {
        contains_text(&self.open, "h1") || contains_text(&self.open, "h2") || contains_text(
            &self.open,
            "h3",
        ) || contains_text(&self.open, "h4") || contains_text(&self.open, "h5") || contains_text(
            &self.open,
            "h6",
        )
    }

    fn unsettled(&self, name: &str) -> (result: bool)
        ensures
            result == self@.unsettled(name@),
    {
        if self.unclear() || is_intrusive(name) {
            return true;
        }
        let held = |text: &str| -> (result: bool)
            ensures
                result == self@.open.contains(text@),
            { contains_text(&self.open, text) };
        let some = self.open.len() > 0;
        let in_cell = self.in_cell();
        let in_list = some && is_list(self.open[self.open.len() - 1].as_str());
        let in_rows = self.within("table") || self.within("tr") || some && is_section(
            self.open[self.open.len() - 1].as_str(),
        );
        proof {
            if some {
                assert(views(self.open@).last() == self.open@.last()@);
            }
        }
        same_text(name, "button") && held("button") || (same_text(name, "hr") || same_text(
            name,
            "input",
        ) || same_text(name, "select")) && held("select") || is_choice(name) && !self.within(
            "select",
        ) && !self.within("optgroup") || same_text(name, "table") && held("table") && !in_cell || is_heading(name) && self.in_heading() || same_text(name, "li") && held(
            "li",
        ) && !in_list || is_entry(name) && (held("dd") || held("dt")) && !in_list
            || is_table_head(name) && !self.within("table") && !self.within("colgroup")
            || is_table_part(name) && !in_rows
    }

    fn doubt(&mut self)
        ensures
            final(self)@ == old(self)@.doubt(),
    {
        self.doubted = self.open.len();
    }

    fn meet(&mut self, name: &str)
        ensures
            final(self)@ == old(self)@.met(name@),
    {
        if self.unsettled(name) {
            self.doubt();
        }
    }

    fn cut(&mut self, count: usize)
        requires
            count <= old(self)@.open.len(),
        ensures
            final(self)@ == old(self)@.cut(count as nat),
    {
        let ghost before = views(self.open@);
        self.open.truncate(count);
        assert(views(self.open@) =~= before.take(count as int));
        if self.doubted > count {
            self.doubted = count;
        }
    }

    fn move_to(&mut self, place: Place)
        ensures
            final(self)@ == old(self)@.at(place),
    {
        self.place = place;
    }

    fn open_tag(&mut self, ending: bool)
        ensures
            final(self)@ == old(self)@.opened(ending),
    {
        self.name = String::new();
        self.ending = ending;
        assert(self.name@ =~= Seq::empty());
    }

    fn add_to_name(&mut self, c: char, place: Place)
        ensures
            final(self)@ == old(self)@.named(c, place),
    {
        if 'A' <= c && c <= 'Z' {
            self.name.push(((c as u8) + 32) as char);
        } else {
            self.name.push(c);
        }
        self.place = place;
    }

    fn push(&mut self, name: String)
        ensures
            final(self)@ == old(self)@.pushed(name@),
    {
        let ghost before = views(self.open@);
        self.open.push(name);
        assert(views(self.open@) =~= before.push(name@));
        if self.open.len() > self.deepest {
            self.deepest = self.open.len();
        }
    }

    fn pop(&mut self)
        requires
            old(self)@.open.len() > 0,
        ensures
            final(self)@ == old(self)@.popped(),
    {
        let count = self.open.len() - 1;
        self.cut(count);
    }

    fn supply(&mut self, name: &str)
        ensures
            final(self)@ == old(self)@.supplied(name@),
    {
        if (is_cell(name) || same_text(name, "tr")) && self.within("table") {
            self.push("tbody".to_owned());
        }
        if is_cell(name) && self.open.len() > 0 {
            assert(views(self.open@).last() == self.open@.last()@);
            if is_section(self.open[self.open.len() - 1].as_str()) {
                self.push("tr".to_owned());
            }
        }
    }

    fn tidy(&mut self, name: &str)
        ensures
            final(self)@ == old(self)@.tidied(name@),
    {
        if self.unclear() {
            return ;
        }
        let cells = self.around_cell();
        if is_table_part(name) && cells < self.open.len() {
            self.cut(cells);
        } else if self.ends_item(name) {
            let count = self.open.len() - 2;
            self.cut(count);
        } else if self.ends_innermost(name) {
            self.pop();
        }
        if (same_text(name, "tr") || is_section(name)) && self.within("tr") {
            self.pop();
        }
        if is_section(name) && self.open.len() > 0 {
            assert(views(self.open@).last() == self.open@.last()@);
            if is_section(self.open[self.open.len() - 1].as_str()) {
                self.pop();
            }
        }
    }

    fn ends_innermost(&self, name: &str) -> (result: bool)
        ensures
            result == self@.ends_innermost(name@),
    {
        if self.open.len() == 0 {
            return false;
        }
        assert(views(self.open@).last() == self.open@.last()@);
        let inner = self.open[self.open.len() - 1].as_str();
        is_item(name) && same_text(inner, name) || is_entry(name) && is_entry(inner) || same_text(
            inner,
            "p",
        ) && (is_block(name) || is_heading(name)) || is_table_part(name) && (is_cell(inner) || same_text(
            inner,
            "colgroup",
        )) || is_choice(name) && same_text(inner, "option") && !self.formatted()
    }

    fn ends_item(&self, name: &str) -> (result: bool)
        ensures
            result == self@.ends_item(name@),
    {
        if self.open.len() < 2 || self.open.len() - 2 < self.doubted || !self.within("p") {
            return false;
        }
        assert(views(self.open@)[self.open@.len() - 2] == self.open@[self.open@.len() - 2]@);
        let outer = self.open[self.open.len() - 2].as_str();
        same_text(name, "li") && same_text(outer, name) || is_entry(name) && is_entry(outer)
    }

    fn start(&mut self, closed: bool)
        ensures
            final(self)@ == old(self)@.started(closed),
    {
        let name = self.name.clone();
        let captioned = self.within("title") || self.within("desc");
        let svg = same_text(name.as_str(), "svg");
        let certain = self.drawing && is_graphic(name.as_str()) && !captioned;
        let drawing = svg || certain;
        if same_text(name.as_str(), "frameset") || same_text(name.as_str(), "plaintext")
            || same_text(name.as_str(), "col") && self.unclear() {
            self.push(name);
            self.move_to(Place::Lost);
            return ;
        }
        if closed && (svg || drawing && self.drawing) {
            self.move_to(Place::Text);
            return ;
        }
        let foreign = self.foreign();
        if is_void(name.as_str()) && !foreign {
            self.meet(name.as_str());
            self.move_to(Place::Text);
            return ;
        }
        let place = if !is_verbatim(name.as_str()) || self.drawing && drawing {
            Place::Text
        } else if foreign {
            Place::Lost
        } else {
            Place::Verbatim
        };
        let again = same_text(name.as_str(), "select") && contains_text(&self.open, "select");
        self.tidy(name.as_str());
        self.meet(name.as_str());
        self.supply(name.as_str());
        self.push(name);
        self.move_to(place);
        if again {
            self.doubt();
        }
        self.drawing = drawing;
    }

    fn left_open(&self, name: &str, from: usize) -> (count: usize)
        requires
            from <= self@.open.len(),
        ensures
            count == left_open(self@.open, self@.doubted, name@, from as nat),
            count <= self@.open.len(),
    {
        let ghost all = views(self.open@);
        let mut count: usize = from;
        while count > self.doubted
            invariant
                count <= from <= self.open.len(),
                all == views(self.open@),
                left_open(all, self.doubted as nat, name@, from as nat) == left_open(
                    all,
                    self.doubted as nat,
                    name@,
                    count as nat,
                ),
            decreases count,
        {
            assert(all[count - 1] == self.open[count - 1]@);
            let inner = self.open[count - 1].as_str();
            if same_text(inner, name) {
                return count - 1;
            }
            if is_formatting(inner) || is_barrier(inner) {
                return self.open.len();
            }
            count -= 1;
        }
        self.open.len()
    }

    fn staying(&self, name: &str) -> (count: usize)
        ensures
            count == staying(self@.open, self@.doubted, name@),
            count <= self@.open.len(),
    {
        let cells = self.around_cell();
        let rows = self.left_open(name, cells);
        if is_cell(name) {
            if cells < self.open.len() {
                assert(views(self.open@)[cells as int] == self.open@[cells as int]@);
                if same_text(self.open[cells].as_str(), name) {
                    return cells;
                }
            }
            self.open.len()
        } else if same_text(name, "table") {
            rows
        } else if same_text(name, "tr") || is_section(name) {
            if rows < self.open.len() && self.in_rows(rows + 1) {
                rows
            } else {
                self.open.len()
            }
        } else if is_block(name) || same_text(name, "select") {
            self.left_open(name, self.open.len())
        } else {
            self.open.len()
        }
    }

    fn end(&mut self)
        ensures
            final(self)@ == old(self)@.ended(),
    {
        let name = self.name.clone();
        let drawing = self.drawing && is_graphic(name.as_str()) && !same_text(
            name.as_str(),
            "svg",
        );
        let unclear = self.unclear();
        let count = self.staying(name.as_str());
        if self.within(name.as_str()) {
            self.pop();
            if unclear || same_text(name.as_str(), "form") && contains_text(&self.open, "form") {
                self.doubt();
            }
        } else if unclear {
            self.doubt();
        } else if count < self.open.len() {
            self.cut(count);
        } else if is_weighty(name.as_str()) {
            self.doubt();
        }
        self.move_to(Place::Text);
        self.drawing = drawing;
    }

    fn tag(&mut self, closed: bool)
        ensures
            final(self)@ == old(self)@.tagged(closed),
    {
        reveal(ScanView::tagged);
        if self.ending {
            self.end();
        } else {
            self.start(closed);
        }
    }

    fn read_verbatim(&mut self, c: char)
        ensures
            final(self)@ == old(self)@.in_verbatim(c),
    {
        if c == '<' {
            self.move_to(Place::VerbatimOpen);
        } else {
            self.move_to(Place::Verbatim);
        }
    }

    fn read_escaped(&mut self, twice: bool, dashes: u8, c: char)
        ensures
            final(self)@ == old(self)@.in_escaped(twice, dashes, c),
    {
        if c == '-' {
            self.move_to(Place::Escaped { twice, dashes: if dashes == 0 { 1 } else { 2 } });
        } else if c == '<' {
            self.move_to(Place::EscapedOpen { twice });
        } else if c == '>' && dashes >= 2 {
            self.move_to(Place::Verbatim);
        } else {
            self.move_to(Place::Escaped { twice, dashes: 0 });
        }
    }

    /// Reads a character that can end the element that holds text only.
    fn closes(&mut self, c: char) -> (closed: bool)
        ensures
            closed == (old(self)@.within(old(self)@.name) && (c == '>' || gap(c) || c == '/')),
            final(self)@ == (if !closed {
                old(self)@
            } else if c == '>' {
                old(self)@.tagged(false)
            } else {
                old(self)@.at(Place::Gap { slash: c == '/' })
            }),
    {
        let name = self.name.clone();
        if !self.within(name.as_str()) {
            return false;
        }
        if c == '>' {
            self.tag(false);
            true
        } else if is_gap(c) || c == '/' {
            self.move_to(Place::Gap { slash: c == '/' });
            true
        } else {
            false
        }
    }

    fn feed(&mut self, c: char)
        ensures
            final(self)@ == old(self)@.after(c),
    {
        match self.place {
            Place::Text => {
                if c == '<' {
                    self.move_to(Place::Open);
                }
            },
            Place::Open => {
                if c == '!' {
                    self.move_to(Place::Bang);
                } else if c == '/' {
                    self.move_to(Place::Close);
                } else if c == '?' {
                    self.move_to(Place::Bogus);
                } else if is_letter(c) {
                    self.open_tag(false);
                    self.add_to_name(c, Place::Name);
                } else if c != '<' {
                    self.move_to(Place::Text);
                }
            },
            Place::Bang => {
                if c == '-' {
                    self.move_to(Place::BangDash);
                } else if c == '[' && self.foreign() {
                    self.move_to(Place::Lost);
                } else if c == '>' {
                    self.move_to(Place::Text);
                } else {
                    self.move_to(Place::Bogus);
                }
            },
            Place::BangDash => {
                if c == '-' {
                    self.move_to(Place::CommentStart);
                } else if c == '>' {
                    self.move_to(Place::Text);
                } else {
                    self.move_to(Place::Bogus);
                }
            },
            Place::CommentStart => {
                if c == '-' {
                    self.move_to(Place::CommentStartDash);
                } else if c == '>' {
                    self.move_to(Place::Text);
                } else {
                    self.move_to(Place::Comment { dashes: 0 });
                }
            },
            Place::CommentStartDash => {
                if c == '-' {
                    self.move_to(Place::Comment { dashes: 2 });
                } else if c == '>' {
                    self.move_to(Place::Text);
                } else {
                    self.move_to(Place::Comment { dashes: 0 });
                }
            },
            Place::Comment { dashes } => {
                if c == '-' {
                    if dashes == 0 {
                        self.move_to(Place::Comment { dashes: 1 });
                    } else {
                        self.move_to(Place::Comment { dashes: 2 });
                    }
                } else if c == '>' && dashes >= 2 {
                    self.move_to(Place::Text);
                } else if c == '!' && dashes >= 2 {
                    self.move_to(Place::CommentBang);
                } else {
                    self.move_to(Place::Comment { dashes: 0 });
                }
            },
            Place::CommentBang => {
                if c == '-' {
                    self.move_to(Place::Comment { dashes: 1 });
                } else if c == '>' {
                    self.move_to(Place::Text);
                } else {
                    self.move_to(Place::Comment { dashes: 0 });
                }
            },
            Place::Bogus => {
                if c == '>' {
                    self.move_to(Place::Text);
                }
            },
            Place::Close => {
                if is_letter(c) {
                    self.open_tag(true);
                    self.add_to_name(c, Place::Name);
                } else if c == '>' {
                    self.move_to(Place::Text);
                } else {
                    self.move_to(Place::Bogus);
                }
            },
            Place::Name => {
                if is_gap(c) {
                    self.move_to(Place::Gap { slash: false });
                } else if c == '/' {
                    self.move_to(Place::Gap { slash: true });
                } else if c == '>' {
                    self.tag(false);
                } else {
                    self.add_to_name(c, Place::Name);
                }
            },
            Place::Gap { slash } => {
                if c == '>' {
                    self.tag(slash);
                } else if c == '/' {
                    self.move_to(Place::Gap { slash: true });
                } else if is_gap(c) {
                    self.move_to(Place::Gap { slash: false });
                } else {
                    self.move_to(Place::Attribute);
                }
            },
            Place::Attribute | Place::AfterAttribute => {
                if c == '>' {
                    self.tag(false);
                } else if c == '/' {
                    self.move_to(Place::Gap { slash: true });
                } else if is_gap(c) {
                    self.move_to(Place::AfterAttribute);
                } else if c == '=' {
                    self.move_to(Place::Value);
                } else {
                    self.move_to(Place::Attribute);
                }
            },
            Place::Value => {
                if c == '>' {
                    self.tag(false);
                } else if is_gap(c) {
                } else if c == '"' {
                    self.move_to(Place::DoubleQuoted);
                } else if c == '\'' {
                    self.move_to(Place::SingleQuoted);
                } else {
                    self.move_to(Place::Unquoted);
                }
            },
            Place::DoubleQuoted => {
                if c == '"' {
                    self.move_to(Place::Gap { slash: false });
                }
            },
            Place::SingleQuoted => {
                if c == '\'' {
                    self.move_to(Place::Gap { slash: false });
                }
            },
            Place::Unquoted => {
                if c == '>' {
                    self.tag(false);
                } else if is_gap(c) {
                    self.move_to(Place::Gap { slash: false });
                }
            },
            Place::Verbatim => self.read_verbatim(c),
            Place::VerbatimOpen => {
                if c == '/' {
                    self.open_tag(true);
                    self.move_to(Place::VerbatimClose);
                } else if c == '!' && self.within("script") {
                    self.move_to(Place::EscapeStart);
                } else {
                    self.read_verbatim(c);
                }
            },
            Place::VerbatimClose => {
                if is_letter(c) {
                    self.add_to_name(c, Place::VerbatimClose);
                } else if !self.closes(c) {
                    self.read_verbatim(c);
                }
            },
            Place::EscapeStart => {
                if c == '-' {
                    self.move_to(Place::EscapeStartDash);
                } else {
                    self.read_verbatim(c);
                }
            },
            Place::EscapeStartDash => {
                if c == '-' {
                    self.move_to(Place::Escaped { twice: false, dashes: 2 });
                } else {
                    self.read_verbatim(c);
                }
            },
            Place::Escaped { twice, dashes } => self.read_escaped(twice, dashes, c),
            Place::EscapedOpen { twice } => {
                if c == '/' {
                    self.open_tag(true);
                    if twice {
                        self.move_to(Place::EscapedName { twice });
                    } else {
                        self.move_to(Place::EscapedClose);
                    }
                } else if is_letter(c) && !twice {
                    self.open_tag(false);
                    self.add_to_name(c, Place::EscapedName { twice });
                } else {
                    self.read_escaped(twice, 0, c);
                }
            },
            Place::EscapedName { twice } => {
                if is_letter(c) {
                    self.add_to_name(c, Place::EscapedName { twice });
                } else if is_gap(c) || c == '/' || c == '>' {
                    let script = same_text(self.name.as_str(), "script");
                    self.move_to(Place::Escaped { twice: twice != script, dashes: 0 });
                } else {
                    self.read_escaped(twice, 0, c);
                }
            },
            Place::EscapedClose => {
                if is_letter(c) {
                    self.add_to_name(c, Place::EscapedClose);
                } else if !self.closes(c) {
                    self.read_escaped(false, 0, c);
                }
            },
            Place::Lost => {
                if c == '<' {
                    let wall = String::new();
                    assert(wall@ =~= Seq::empty());
                    self.push(wall);
                }
            },
        }
    }
}

fn is_gap(c: char) -> (result: bool)
    ensures
        result == gap(c),
{
    c == ' ' || c == '\t' || c == '\n' || c == '\r' || c == '\u{c}'
}

fn is_letter(c: char) -> (result: bool)
    ensures
        result == letter(c),
{
    'a' <= c && c <= 'z' || 'A' <= c && c <= 'Z'
}

/// How deep the elements of a page nest at most.
pub fn nesting_of(page: &str) -> (depth: usize)
    ensures
        depth == nesting(page@),
{
    let list = characters(page);
    let mut scan = Scan::new();
    let mut i: usize = 0;
    while i < list.len()
        invariant
            i <= list.len(),
            list@ == page@,
            scan@ == scanned(page@, i as nat),
        decreases list.len() - i,
    {
        scan.feed(list[i]);
        i += 1;
    }
    scan.deepest
}

} // verus!
