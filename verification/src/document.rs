//! The document model: pages (imported PDF pages or blank, ruled sheets) and
//! their annotations (text boxes, freehand strokes, shapes).
//!
//! Lengths, coordinates and color channels are IEEE-754 `f64` values in the
//! application; the library carries each one as its 64-bit pattern
//! (`f64::to_bits`), so it can store, compare and move them exactly without
//! doing arithmetic on them.

use vstd::prelude::*;

verus! {

/// File extension of saved documents.
pub const FILE_EXTENSION: &'static str = "inkpdf";

/// Bit pattern of `1.0f64`.
pub const ONE_BITS: u64 = 0x3ff0_0000_0000_0000;

/// Default blank-page width in PDF points (A4: 595.0).
pub const A4_WIDTH: u64 = 0x4082_9800_0000_0000;

/// Default blank-page height in PDF points (A4: 842.0).
pub const A4_HEIGHT: u64 = 0x408a_5000_0000_0000;

/// Default gap in PDF points between the lines of a ruled blank page (20.0).
pub const DEFAULT_PATTERN_SPACING: u64 = 0x4034_0000_0000_0000;

/// An RGBA color; each channel is the bit pattern of an `f64` in `[0, 1]`.
#[derive(Clone, Copy, Debug, PartialEq, Eq, Structural)]
pub struct Color {
    pub r: u64,
    pub g: u64,
    pub b: u64,
    pub a: u64,
}

impl Color {
    pub open spec fn spec_white() -> Color {
        Color { r: ONE_BITS, g: ONE_BITS, b: ONE_BITS, a: ONE_BITS }
    }

    pub open spec fn spec_black() -> Color {
        Color { r: 0, g: 0, b: 0, a: ONE_BITS }
    }

    /// Opaque white.
    #[verifier::when_used_as_spec(spec_white)]
    pub fn white() -> (c: Color)
        ensures
            c == Color::spec_white(),
    {
        Color { r: ONE_BITS, g: ONE_BITS, b: ONE_BITS, a: ONE_BITS }
    }

    /// Opaque black.
    #[verifier::when_used_as_spec(spec_black)]
    pub fn black() -> (c: Color)
        ensures
            c == Color::spec_black(),
    {
        Color { r: 0, g: 0, b: 0, a: ONE_BITS }
    }
}

/// Background ruling of a blank page.
#[derive(Clone, Copy, Debug, PartialEq, Eq, Structural)]
pub enum PagePattern {
    Plain,
    Grid,
    Dotted,
    Lined,
}

/// Outline drawn by the shape tool.
#[derive(Clone, Copy, Debug, PartialEq, Eq, Structural)]
pub enum ShapeKind {
    Rectangle,
    Ellipse,
    Line,
}

/// What a page shows under its annotations.
#[derive(Clone, Debug, PartialEq, Eq, Structural)]
pub enum PageKind {
    /// Page `page_index` of the embedded PDF.
    Pdf { page_index: usize },
    /// A blank sheet in `color`, ruled with `pattern` every `pattern_spacing` points.
    Blank { color: Color, pattern: PagePattern, pattern_spacing: u64 },
}


/// Style of one character in a text box.
#[derive(Clone, Debug, PartialEq)]
pub struct TextStyle {
    pub color: Color,
    /// Font family name.
    pub font: String,
    pub bold: bool,
    pub italic: bool,
    pub underline: bool,
    pub strikethrough: bool,
    /// Marker color painted behind the character, if any.
    pub highlight: Option<Color>,
}

/// What a style looks like: color, font family, bold, italic, underline,
/// strikethrough, highlight.
pub type StyleView = (Color, Seq<char>, bool, bool, bool, bool, Option<Color>);

impl View for TextStyle {
    type V = StyleView;

    open spec fn view(&self) -> Self::V {
        (
            self.color,
            self.font@,
            self.bold,
            self.italic,
            self.underline,
            self.strikethrough,
            self.highlight,
        )
    }
}

impl TextStyle {
    /// A copy of this style.
    pub fn duplicate(&self) -> (s: TextStyle)
        ensures
            s == *self,
    {
        TextStyle {
            color: self.color,
            font: self.font.clone(),
            bold: self.bold,
            italic: self.italic,
            underline: self.underline,
            strikethrough: self.strikethrough,
            highlight: self.highlight,
        }
    }

    /// Whether two styles are identical: the same color and highlight bit
    /// for bit, font family and flags. (See [`style_equal`] for equality of
    /// the colors as `f64`s.)
    pub fn same_as(&self, other: &TextStyle) -> (r: bool)
        ensures
            r == (self@ == other@),
    {
        let hl_same = match (self.highlight, other.highlight) {
            (None, None) => true,
            (Some(a), Some(b)) => a == b,
            _ => false,
        };
        self.color == other.color && self.font == other.font && self.bold == other.bold
            && self.italic == other.italic && self.underline == other.underline
            && self.strikethrough == other.strikethrough && hl_same
    }
}

impl Default for TextStyle {
    /// Black "Sans", no emphasis, no highlight.
    fn default() -> (s: TextStyle)
        ensures
            s.color == Color::black(),
            s.font@ == "Sans"@,
            !s.bold && !s.italic && !s.underline && !s.strikethrough,
            s.highlight == None::<Color>,
    {
        TextStyle {
            color: Color::black(),
            font: String::from_str("Sans"),
            bold: false,
            italic: false,
            underline: false,
            strikethrough: false,
            highlight: None,
        }
    }
}


/// A run of text sharing one style.
#[derive(Clone, Debug, PartialEq)]
pub struct TextRun {
    pub text: String,
    pub style: TextStyle,
}

/// The characters of a run, each paired with the run's style view.
pub open spec fn run_view(r: TextRun) -> Seq<(char, StyleView)> {
    r.text@.map_values(|c: char| (c, r.style@))
}

/// The characters of all runs in order, each with its run's style view.
pub open spec fn runs_view(runs: Seq<TextRun>) -> Seq<(char, StyleView)> {
    runs.flat_map(|r: TextRun| run_view(r))
}

/// The characters of a run, each paired with the run's style.
pub open spec fn run_pairs(r: TextRun) -> Seq<(char, TextStyle)> {
    r.text@.map_values(|c: char| (c, r.style))
}

/// The characters of all runs in order, each with its run's style.
pub open spec fn runs_pairs(runs: Seq<TextRun>) -> Seq<(char, TextStyle)> {
    runs.flat_map(|r: TextRun| run_pairs(r))
}

/// A text box anchored at its top-left corner `(x, y)`, in font size `size`.
/// `runs` hold differently styled spans.
#[derive(Clone, Debug, PartialEq)]
pub struct TextAnnotation {
    pub x: u64,
    pub y: u64,
    pub size: u64,
    pub runs: Vec<TextRun>,
}

impl TextAnnotation {
    /// The characters with their styles, flattened across runs.
    pub fn glyphs(&self) -> (r: Vec<(char, TextStyle)>)
        ensures
            r@ == runs_pairs(self.runs@),
    {
        let mut out: Vec<(char, TextStyle)> = Vec::new();
        let mut i: usize = 0;
        while i < self.runs.len()
            invariant
                i <= self.runs@.len(),
                out@ == runs_pairs(self.runs@.take(i as int)),
            decreases self.runs@.len() - i,
        {
            let run = &self.runs[i];
            let text = run.text.as_str();
            let n = text.unicode_len();
            let mut j: usize = 0;
            while j < n
                invariant
                    i < self.runs@.len(),
                    *run == self.runs@[i as int],
                    text@ == run.text@,
                    n == text@.len(),
                    j <= n,
                    out@ == runs_pairs(self.runs@.take(i as int)) + run_pairs(*run).take(j as int),
                decreases n - j,
            {
                let c = text.get_char(j);
                out.push((c, run.style.duplicate()));
                proof {
                    assert(run_pairs(*run).take(j + 1) =~= run_pairs(*run).take(j as int).push(
                        (c, run.style),
                    ));
                }
                j = j + 1;
            }
            proof {
                assert(run_pairs(*run).take(n as int) =~= run_pairs(*run));
                self.runs@.lemma_flat_map_take_append(|r: TextRun| run_pairs(r), i as int);
            }
            i = i + 1;
        }
        proof {
            assert(self.runs@.take(self.runs@.len() as int) =~= self.runs@);
        }
        out
    }
}

/// Viewing the flattened characters and styles of some runs gives the
/// runs' character/style view.
pub proof fn lemma_runs_pairs_view(runs: Seq<TextRun>)
    ensures
        runs_pairs(runs).map_values(|p: (char, TextStyle)| (p.0, p.1@)) == runs_view(runs),
    decreases runs.len(),
{
    let f = |p: (char, TextStyle)| (p.0, p.1@);
    if runs.len() == 0 {
        assert(runs_pairs(runs) =~= Seq::<(char, TextStyle)>::empty()) by {
            assert(runs.map_values(|r: TextRun| run_pairs(r)) =~= Seq::<Seq<(char, TextStyle)>>::empty());
        }
        assert(runs_view(runs) =~= Seq::<(char, StyleView)>::empty()) by {
            assert(runs.map_values(|r: TextRun| run_view(r)) =~= Seq::<Seq<(char, StyleView)>>::empty());
        }
        assert(runs_pairs(runs).map_values(f) =~= runs_view(runs));
    } else {
        let head = runs.drop_last();
        let last = runs.last();
        lemma_runs_pairs_view(head);
        assert(runs =~= head.push(last));
        head.lemma_flat_map_push(|r: TextRun| run_pairs(r), last);
        head.lemma_flat_map_push(|r: TextRun| run_view(r), last);
        assert(run_pairs(last).map_values(f) =~= run_view(last));
        assert((runs_pairs(head) + run_pairs(last)).map_values(f) =~= runs_pairs(head).map_values(f)
            + run_pairs(last).map_values(f));
    }
}

/// A freehand pen stroke through `points`.
#[derive(Clone, Debug, PartialEq)]
pub struct StrokeAnnotation {
    pub points: Vec<(u64, u64)>,
    pub color: Color,
    pub width: u64,
}

/// A rectangle, ellipse or line spanned by the corners `(x0, y0)`, `(x1, y1)`.
#[derive(Clone, Debug, PartialEq, Eq, Structural)]
pub struct ShapeAnnotation {
    pub shape: ShapeKind,
    pub x0: u64,
    pub y0: u64,
    pub x1: u64,
    pub y1: u64,
    pub color: Color,
    pub width: u64,
}

#[derive(Clone, Debug, PartialEq)]
pub enum AnnotationKind {
    Text(TextAnnotation),
    Stroke(StrokeAnnotation),
    Shape(ShapeAnnotation),
}

/// An annotation with its stable id (the UUID's 128 bits).
#[derive(Clone, Debug, PartialEq)]
pub struct Annotation {
    pub id: u128,
    pub kind: AnnotationKind,
}

/// A page of the document; `width`/`height` are in PDF points.
#[derive(Clone, Debug, PartialEq)]
pub struct Page {
    pub kind: PageKind,
    pub width: u64,
    pub height: u64,
    pub annotations: Vec<Annotation>,
}

/// The imported PDF, embedded so a saved document stays self-contained.
#[derive(Clone, Debug, PartialEq)]
pub struct PdfSource {
    pub name: String,
    pub bytes: Vec<u8>,
}

#[derive(Clone, Debug, PartialEq)]
pub struct Document {
    pub source: Option<PdfSource>,
    pub pages: Vec<Page>,
}

impl Default for Document {
    /// The empty document.
    fn default() -> (d: Document)
        ensures
            d.source == None::<PdfSource>,
            d.pages@.len() == 0,
    {
        Document::new()
    }
}

/// Whether `page` is the fresh blank page that `insert_blank_page` adds.
pub open spec fn is_new_blank_page(
    page: Page,
    width: u64,
    height: u64,
    color: Color,
    pattern: PagePattern,
    spacing: u64,
) -> bool {
    &&& page.kind == (PageKind::Blank { color, pattern, pattern_spacing: spacing })
    &&& page.width == width
    &&& page.height == height
    &&& page.annotations@.len() == 0
}

/// `new` is `old` with at most the annotations of page `i` changed.
pub open spec fn only_annotations_of(old: Seq<Page>, new: Seq<Page>, i: int) -> bool {
    &&& new.len() == old.len()
    &&& forall|j: int| 0 <= j < old.len() && j != i ==> #[trigger] new[j] == old[j]
    &&& 0 <= i < old.len() ==> {
        &&& new[i].kind == old[i].kind
        &&& new[i].width == old[i].width
        &&& new[i].height == old[i].height
    }
}

/// `new` is `old` with at most page `i`'s kind and size changed.
pub open spec fn only_frame_of(old: Seq<Page>, new: Seq<Page>, i: int) -> bool {
    &&& new.len() == old.len()
    &&& forall|j: int| 0 <= j < old.len() && j != i ==> #[trigger] new[j] == old[j]
    &&& 0 <= i < old.len() ==> new[i].annotations == old[i].annotations
}

/// Whether `id` is one of `ids`.
pub fn contains_id(ids: &[u128], id: u128) -> (r: bool)
    ensures
        r == ids@.contains(id),
{
    let mut i: usize = 0;
    while i < ids.len()
        invariant
            i <= ids@.len(),
            forall|j: int| 0 <= j < i ==> ids@[j] != id,
        decreases ids@.len() - i,
    {
        if ids[i] == id {
            proof {
                assert(ids@[i as int] == id);
            }
            return true;
        }
        i = i + 1;
    }
    false
}

/// The annotations whose ids are in `ids`.
pub open spec fn with_ids(anns: Seq<Annotation>, ids: Seq<u128>) -> Seq<Annotation> {
    anns.filter(|a: Annotation| ids.contains(a.id))
}

/// The annotations whose ids are not in `ids`.
pub open spec fn without_ids(anns: Seq<Annotation>, ids: Seq<u128>) -> Seq<Annotation> {
    anns.filter(|a: Annotation| !ids.contains(a.id))
}

/// Splits `anns` into those whose ids are not in `ids` (kept) and those that
/// are (lifted), both in their original order.
fn partition_by_ids(anns: Vec<Annotation>, ids: &[u128]) -> (r: (Vec<Annotation>, Vec<Annotation>))
    ensures
        r.0@ == without_ids(anns@, ids@),
        r.1@ == with_ids(anns@, ids@),
{
    let ghost all = anns@;
    let mut kept: Vec<Annotation> = Vec::new();
    let mut lifted: Vec<Annotation> = Vec::new();
    let mut rest = anns;
    let ghost mut done: int = 0;
    while rest.len() > 0
        invariant
            0 <= done <= all.len(),
            rest@ == all.subrange(done, all.len() as int),
            kept@ == without_ids(all.subrange(0, done), ids@),
            lifted@ == with_ids(all.subrange(0, done), ids@),
        decreases rest@.len(),
    {
        let a = rest.remove(0);
        proof {
            assert(all.subrange(0, done + 1) =~= all.subrange(0, done).push(a));
            all.subrange(0, done).lemma_filter_push(a, |x: Annotation| ids@.contains(x.id));
            all.subrange(0, done).lemma_filter_push(a, |x: Annotation| !ids@.contains(x.id));
        }
        if contains_id(ids, a.id) {
            lifted.push(a);
        } else {
            kept.push(a);
        }
        proof {
            done = done + 1;
            assert(rest@ =~= all.subrange(done, all.len() as int));
        }
    }
    proof {
        assert(all.subrange(0, done) =~= all);
    }
    (kept, lifted)
}

impl Document {
    /// An empty document with no PDF behind it.
    pub fn new() -> (d: Document)
        ensures
            d.source == None::<PdfSource>,
            d.pages@.len() == 0,
    {
        Document { source: None, pages: Vec::new() }
    }

    /// The document for an imported PDF named `name` with contents `bytes`
    /// whose pages have the sizes `sizes`: one page per PDF page, in order,
    /// each without annotations.
    pub fn from_pdf(name: String, bytes: Vec<u8>, sizes: &[(u64, u64)]) -> (d: Document)
        ensures
            d.source == Some(PdfSource { name, bytes }),
            d.pages@.len() == sizes@.len(),
            forall|i: int|
                0 <= i < sizes@.len() ==> {
                    &&& #[trigger] d.pages@[i].kind == (PageKind::Pdf { page_index: i as usize })
                    &&& d.pages@[i].width == sizes@[i].0
                    &&& d.pages@[i].height == sizes@[i].1
                    &&& d.pages@[i].annotations@.len() == 0
                },
    {
        let mut pages: Vec<Page> = Vec::new();
        let mut i: usize = 0;
        while i < sizes.len()
            invariant
                i <= sizes@.len(),
                pages@.len() == i,
                forall|j: int|
                    0 <= j < i ==> {
                        &&& #[trigger] pages@[j].kind == (PageKind::Pdf { page_index: j as usize })
                        &&& pages@[j].width == sizes@[j].0
                        &&& pages@[j].height == sizes@[j].1
                        &&& pages@[j].annotations@.len() == 0
                    },
            decreases sizes@.len() - i,
        {
            let (w, h) = sizes[i];
            pages.push(Page { kind: PageKind::Pdf { page_index: i }, width: w, height: h, annotations: Vec::new() });
            i = i + 1;
        }
        Document { source: Some(PdfSource { name, bytes }), pages }
    }

    /// Inserts a blank page at `at`; an index past the end appends.
    pub fn insert_blank_page(
        &mut self,
        at: usize,
        width: u64,
        height: u64,
        color: Color,
        pattern: PagePattern,
        spacing: u64,
    )
        ensures
            final(self).source == old(self).source,
            ({
                let pos = if at < old(self).pages@.len() { at as int } else { old(self).pages@.len() as int };
                &&& final(self).pages@.len() == old(self).pages@.len() + 1
                &&& final(self).pages@.subrange(0, pos) == old(self).pages@.subrange(0, pos)
                &&& final(self).pages@.subrange(pos + 1, final(self).pages@.len() as int)
                    == old(self).pages@.subrange(pos, old(self).pages@.len() as int)
                &&& is_new_blank_page(final(self).pages@[pos], width, height, color, pattern, spacing)
            }),
    {
        let page = Page {
            kind: PageKind::Blank { color, pattern, pattern_spacing: spacing },
            width,
            height,
            annotations: Vec::new(),
        };
        let len = self.pages.len();
        let pos = if at < len { at } else { len };
        self.pages.insert(pos, page);
        assert(self.pages@.subrange(0, pos as int) =~= old(self).pages@.subrange(0, pos as int));
        assert(self.pages@.subrange(pos + 1, self.pages@.len() as int) =~= old(self).pages@.subrange(
            pos as int,
            old(self).pages@.len() as int,
        ));
    }

    /// Removes page `index` if it exists; returns whether it did.
    pub fn remove_page(&mut self, index: usize) -> (removed: bool)
        ensures
            removed == (index < old(self).pages@.len()),
            final(self).source == old(self).source,
            final(self).pages@ == if removed {
                old(self).pages@.remove(index as int)
            } else {
                old(self).pages@
            },
    {
        if index < self.pages.len() {
            self.pages.remove(index);
            true
        } else {
            false
        }
    }

    /// Width and height of page `index`, if it exists.
    pub fn page_size(&self, index: usize) -> (r: Option<(u64, u64)>)
        ensures
            r == if index < self.pages@.len() {
                Some((self.pages@[index as int].width, self.pages@[index as int].height))
            } else {
                None
            },
    {
        if index < self.pages.len() {
            Some((self.pages[index].width, self.pages[index].height))
        } else {
            None
        }
    }

    /// Size for a new blank page inserted next to page `current`: that
    /// page's size, else the last page's, else A4.
    pub fn blank_page_size(&self, current: usize) -> (r: (u64, u64))
        ensures
            r == if current < self.pages@.len() {
                (self.pages@[current as int].width, self.pages@[current as int].height)
            } else if self.pages@.len() > 0 {
                (self.pages@.last().width, self.pages@.last().height)
            } else {
                (A4_WIDTH, A4_HEIGHT)
            },
    {
        let len = self.pages.len();
        if current < len {
            (self.pages[current].width, self.pages[current].height)
        } else if len > 0 {
            (self.pages[len - 1].width, self.pages[len - 1].height)
        } else {
            (A4_WIDTH, A4_HEIGHT)
        }
    }

    /// Whether page `index` exists and is a blank (resizable, ruled) page.
    pub fn page_is_blank(&self, index: usize) -> (r: bool)
        ensures
            r == (index < self.pages@.len() && self.pages@[index as int].kind is Blank),
    {
        if index < self.pages.len() {
            match self.pages[index].kind {
                PageKind::Blank { .. } => true,
                PageKind::Pdf { .. } => false,
            }
        } else {
            false
        }
    }

    /// Size of the PDF page nearest to page `index`: the closest preceding
    /// one, else the closest following one; A4 if there is none.
    pub fn nearest_pdf_page_size(&self, index: usize) -> (r: (u64, u64))
        ensures
            r == nearest_pdf_size(self.pages@, index as int),
    {
        let len = self.pages.len();
        let mut i = if index < len { index } else { len };
        while i > 0
            invariant
                i <= len == self.pages@.len(),
                i <= index,
                forall|j: int| i <= j < index && j < len ==> !(#[trigger] self.pages@[j].kind is Pdf),
            decreases i,
        {
            i = i - 1;
            if let PageKind::Pdf { .. } = self.pages[i].kind {
                proof {
                    assert(last_pdf_before(self.pages@, index as int) == Some(i as int)) by {
                        lemma_last_pdf_before(self.pages@, index as int, i as int);
                    }
                }
                return (self.pages[i].width, self.pages[i].height);
            }
        }
        proof {
            lemma_no_pdf_before(self.pages@, index as int);
        }
        let mut k = index;
        while k < len && len - k > 1
            invariant
                index <= k,
                len == self.pages@.len(),
                last_pdf_before(self.pages@, index as int) is None,
                forall|j: int| index < j <= k && j < len ==> !(#[trigger] self.pages@[j].kind is Pdf),
            decreases len - k,
        {
            k = k + 1;
            if let PageKind::Pdf { .. } = self.pages[k].kind {
                proof {
                    lemma_first_pdf_after(self.pages@, index as int, k as int);
                }
                return (self.pages[k].width, self.pages[k].height);
            }
        }
        proof {
            lemma_no_pdf_after(self.pages@, index as int);
        }
        (A4_WIDTH, A4_HEIGHT)
    }

    /// If page `index` is blank, gives it the ruling `pattern` every
    /// `spacing` points; returns whether it did.
    pub fn set_blank_style(&mut self, index: usize, pattern: PagePattern, spacing: u64) -> (done: bool)
        ensures
            done == (index < old(self).pages@.len() && old(self).pages@[index as int].kind is Blank),
            final(self).source == old(self).source,
            only_frame_of(old(self).pages@, final(self).pages@, index as int),
            done ==> final(self).pages@[index as int].width == old(self).pages@[index as int].width
                && final(self).pages@[index as int].height == old(self).pages@[index as int].height
                && final(self).pages@[index as int].kind == (PageKind::Blank {
                color: old(self).pages@[index as int].kind->Blank_color,
                pattern,
                pattern_spacing: spacing,
            }),
            !done ==> final(self).pages@ == old(self).pages@,
    {
        if index < self.pages.len() {
            let page = &mut self.pages[index];
            match page.kind {
                PageKind::Blank { color, .. } => {
                    page.kind = PageKind::Blank { color, pattern, pattern_spacing: spacing };
                    true
                },
                PageKind::Pdf { .. } => false,
            }
        } else {
            false
        }
    }

    /// Gives every blank page the ruling `pattern` every `spacing` points.
    pub fn apply_blank_style_to_all(&mut self, pattern: PagePattern, spacing: u64)
        ensures
            final(self).source == old(self).source,
            final(self).pages@.len() == old(self).pages@.len(),
            forall|i: int|
                0 <= i < old(self).pages@.len() ==> #[trigger] final(self).pages@[i] == restyled_blank(
                    old(self).pages@[i],
                    pattern,
                    spacing,
                ),
    {
        let mut i: usize = 0;
        while i < self.pages.len()
            invariant
                i <= self.pages@.len() == old(self).pages@.len(),
                self.source == old(self).source,
                forall|j: int|
                    0 <= j < i ==> #[trigger] self.pages@[j] == restyled_blank(
                        old(self).pages@[j],
                        pattern,
                        spacing,
                    ),
                forall|j: int| i <= j < self.pages@.len() ==> #[trigger] self.pages@[j] == old(self).pages@[j],
            decreases self.pages@.len() - i,
        {
            let page = &mut self.pages[i];
            match page.kind {
                PageKind::Blank { color, .. } => {
                    page.kind = PageKind::Blank { color, pattern, pattern_spacing: spacing };
                },
                PageKind::Pdf { .. } => {},
            }
            i = i + 1;
        }
    }

    /// If page `index` is blank, sets its size; returns whether it did.
    pub fn set_page_size(&mut self, index: usize, width: u64, height: u64) -> (done: bool)
        ensures
            done == (index < old(self).pages@.len() && old(self).pages@[index as int].kind is Blank),
            final(self).source == old(self).source,
            only_frame_of(old(self).pages@, final(self).pages@, index as int),
            done ==> final(self).pages@[index as int].kind == old(self).pages@[index as int].kind
                && final(self).pages@[index as int].width == width
                && final(self).pages@[index as int].height == height,
            !done ==> final(self).pages@ == old(self).pages@,
    {
        if self.page_is_blank(index) {
            let page = &mut self.pages[index];
            page.width = width;
            page.height = height;
            true
        } else {
            false
        }
    }

    /// Appends `annotation` to page `page`; returns whether that page exists.
    pub fn push_annotation(&mut self, page: usize, annotation: Annotation) -> (done: bool)
        ensures
            done == (page < old(self).pages@.len()),
            final(self).source == old(self).source,
            only_annotations_of(old(self).pages@, final(self).pages@, page as int),
            done ==> final(self).pages@[page as int].annotations@ == old(self).pages@[page as int].annotations@.push(annotation),
            !done ==> final(self).pages@ == old(self).pages@,
    {
        if page < self.pages.len() {
            let p = &mut self.pages[page];
            p.annotations.push(annotation);
            true
        } else {
            false
        }
    }

    /// Appends `annotations` (in order) to page `page`; returns whether that
    /// page exists.
    pub fn extend_annotations(&mut self, page: usize, annotations: Vec<Annotation>) -> (done: bool)
        ensures
            done == (page < old(self).pages@.len()),
            final(self).source == old(self).source,
            only_annotations_of(old(self).pages@, final(self).pages@, page as int),
            done ==> final(self).pages@[page as int].annotations@ == old(self).pages@[page as int].annotations@ + annotations@,
            !done ==> final(self).pages@ == old(self).pages@,
    {
        if page < self.pages.len() {
            let p = &mut self.pages[page];
            let mut more = annotations;
            p.annotations.append(&mut more);
            true
        } else {
            false
        }
    }

    /// Takes annotation `index` off page `page`, if both exist.
    pub fn take_annotation(&mut self, page: usize, index: usize) -> (r: Option<Annotation>)
        ensures
            final(self).source == old(self).source,
            only_annotations_of(old(self).pages@, final(self).pages@, page as int),
            if page < old(self).pages@.len() && index < old(self).pages@[page as int].annotations@.len() {
                &&& r == Some(old(self).pages@[page as int].annotations@[index as int])
                &&& final(self).pages@[page as int].annotations@ == old(self).pages@[page as int].annotations@.remove(index as int)
            } else {
                &&& r is None
                &&& final(self).pages@ == old(self).pages@
            },
    {
        if page < self.pages.len() && index < self.pages[page].annotations.len() {
            let p = &mut self.pages[page];
            Some(p.annotations.remove(index))
        } else {
            None
        }
    }

    /// Puts `annotation` back on page `page` at `index` (or at the end, if
    /// `index` is past it); returns whether the page exists.
    pub fn insert_annotation(&mut self, page: usize, index: usize, annotation: Annotation) -> (done: bool)
        ensures
            done == (page < old(self).pages@.len()),
            final(self).source == old(self).source,
            only_annotations_of(old(self).pages@, final(self).pages@, page as int),
            done ==> final(self).pages@[page as int].annotations@ == old(self).pages@[page as int].annotations@.insert(
                if index < old(self).pages@[page as int].annotations@.len() {
                    index as int
                } else {
                    old(self).pages@[page as int].annotations@.len() as int
                },
                annotation,
            ),
            !done ==> final(self).pages@ == old(self).pages@,
    {
        if page < self.pages.len() {
            let p = &mut self.pages[page];
            let len = p.annotations.len();
            let at = if index < len { index } else { len };
            p.annotations.insert(at, annotation);
            true
        } else {
            false
        }
    }

    /// The id of annotation `index` on page `page`, if both exist.
    pub fn annotation_id(&self, page: usize, index: usize) -> (r: Option<u128>)
        ensures
            r == if page < self.pages@.len() && index < self.pages@[page as int].annotations@.len() {
                Some(self.pages@[page as int].annotations@[index as int].id)
            } else {
                None
            },
    {
        if page < self.pages.len() && index < self.pages[page].annotations.len() {
            Some(self.pages[page].annotations[index].id)
        } else {
            None
        }
    }

    /// Removes every annotation of page `page` whose id is in `ids`;
    /// returns whether the page exists.
    pub fn remove_annotations(&mut self, page: usize, ids: &[u128]) -> (done: bool)
        ensures
            done == (page < old(self).pages@.len()),
            final(self).source == old(self).source,
            only_annotations_of(old(self).pages@, final(self).pages@, page as int),
            done ==> final(self).pages@[page as int].annotations@ == without_ids(
                old(self).pages@[page as int].annotations@,
                ids@,
            ),
            !done ==> final(self).pages@ == old(self).pages@,
    {
        if page < self.pages.len() {
            let p = &mut self.pages[page];
            let mut anns: Vec<Annotation> = Vec::new();
            std::mem::swap(&mut anns, &mut p.annotations);
            let (kept, _lifted) = partition_by_ids(anns, ids);
            p.annotations = kept;
            true
        } else {
            false
        }
    }

    /// Lifts every annotation of page `page` whose id is in `ids` out of the
    /// page, returning them in page order (none if the page does not exist).
    pub fn lift_annotations(&mut self, page: usize, ids: &[u128]) -> (lifted: Vec<Annotation>)
        ensures
            final(self).source == old(self).source,
            only_annotations_of(old(self).pages@, final(self).pages@, page as int),
            page < old(self).pages@.len() ==> {
                &&& final(self).pages@[page as int].annotations@ == without_ids(
                    old(self).pages@[page as int].annotations@,
                    ids@,
                )
                &&& lifted@ == with_ids(old(self).pages@[page as int].annotations@, ids@)
            },
            page >= old(self).pages@.len() ==> lifted@.len() == 0 && final(self).pages@ == old(self).pages@,
    {
        if page < self.pages.len() {
            let p = &mut self.pages[page];
            let mut anns: Vec<Annotation> = Vec::new();
            std::mem::swap(&mut anns, &mut p.annotations);
            let (kept, lifted) = partition_by_ids(anns, ids);
            p.annotations = kept;
            lifted
        } else {
            Vec::new()
        }
    }
}

/// Taking annotation `i` off a page (`take_annotation`) and inserting it
/// back at `i` (`insert_annotation`) restores the page's annotations.
pub proof fn lemma_take_then_insert(anns: Seq<Annotation>, i: int)
    requires
        0 <= i < anns.len(),
    ensures
        anns.remove(i).insert(
            if i < anns.remove(i).len() {
                i
            } else {
                anns.remove(i).len() as int
            },
            anns[i],
        ) == anns,
{
    assert(anns.remove(i).insert(i, anns[i]) =~= anns);
}

/// Lifting a group of annotations off a page (`lift_annotations`) and
/// putting them back (`extend_annotations`) leaves the page with the same
/// annotations, each as often as before; only their order may change.
pub proof fn lemma_lift_then_extend(anns: Seq<Annotation>, ids: Seq<u128>)
    ensures
        (without_ids(anns, ids) + with_ids(anns, ids)).to_multiset() == anns.to_multiset(),
    decreases anns.len(),
{
    broadcast use vstd::seq_lib::group_to_multiset_ensures;

    vstd::seq_lib::lemma_multiset_commutative(without_ids(anns, ids), with_ids(anns, ids));
    if anns.len() == 0 {
        assert(without_ids(anns, ids) =~= Seq::<Annotation>::empty());
        assert(with_ids(anns, ids) =~= Seq::<Annotation>::empty());
    } else {
        let s = anns.drop_last();
        let a = anns.last();
        assert(anns =~= s.push(a));
        lemma_lift_then_extend(s, ids);
        vstd::seq_lib::lemma_multiset_commutative(without_ids(s, ids), with_ids(s, ids));
        s.lemma_filter_push(a, |x: Annotation| ids.contains(x.id));
        s.lemma_filter_push(a, |x: Annotation| !ids.contains(x.id));
        assert(anns.to_multiset() =~= s.to_multiset().insert(a));
        if ids.contains(a.id) {
            assert(with_ids(anns, ids) == with_ids(s, ids).push(a));
            assert(without_ids(anns, ids) == without_ids(s, ids));
        } else {
            assert(with_ids(anns, ids) == with_ids(s, ids));
            assert(without_ids(anns, ids) == without_ids(s, ids).push(a));
        }
        assert((without_ids(anns, ids) + with_ids(anns, ids)).to_multiset() =~= anns.to_multiset());
    }
}

/// A restyling of strokes and/or shapes from the tool controls.
#[derive(Clone, Copy, Debug, PartialEq, Eq, Structural)]
pub enum AnnotationChange {
    /// Pen color: strokes only.
    StrokeColor(Color),
    /// Pen width: strokes only.
    StrokeWidth(u64),
    /// Shape color: shapes only.
    ShapeColor(Color),
    /// Shape line width: shapes only.
    ShapeWidth(u64),
    /// Shape kind: shapes only.
    ShapeKind(ShapeKind),
    /// Color of strokes and shapes alike.
    Color(Color),
    /// Width of strokes and shapes alike.
    Width(u64),
}

/// Whether `change` restyles an annotation of this kind.
pub open spec fn change_applies(kind: AnnotationKind, change: AnnotationChange) -> bool {
    match kind {
        AnnotationKind::Text(_) => false,
        AnnotationKind::Stroke(_) => match change {
            AnnotationChange::StrokeColor(_) | AnnotationChange::StrokeWidth(_)
            | AnnotationChange::Color(_) | AnnotationChange::Width(_) => true,
            _ => false,
        },
        AnnotationKind::Shape(_) => match change {
            AnnotationChange::ShapeColor(_) | AnnotationChange::ShapeWidth(_)
            | AnnotationChange::ShapeKind(_) | AnnotationChange::Color(_)
            | AnnotationChange::Width(_) => true,
            _ => false,
        },
    }
}

/// `kind` restyled by `change` (unchanged where it does not apply).
pub open spec fn changed_kind(kind: AnnotationKind, change: AnnotationChange) -> AnnotationKind {
    match kind {
        AnnotationKind::Stroke(s) => match change {
            AnnotationChange::StrokeColor(c) | AnnotationChange::Color(c) => AnnotationKind::Stroke(
                StrokeAnnotation { color: c, ..s },
            ),
            AnnotationChange::StrokeWidth(w) | AnnotationChange::Width(w) => AnnotationKind::Stroke(
                StrokeAnnotation { width: w, ..s },
            ),
            _ => kind,
        },
        AnnotationKind::Shape(s) => match change {
            AnnotationChange::ShapeColor(c) | AnnotationChange::Color(c) => AnnotationKind::Shape(
                ShapeAnnotation { color: c, ..s },
            ),
            AnnotationChange::ShapeWidth(w) | AnnotationChange::Width(w) => AnnotationKind::Shape(
                ShapeAnnotation { width: w, ..s },
            ),
            AnnotationChange::ShapeKind(k) => AnnotationKind::Shape(ShapeAnnotation { shape: k, ..s }),
            _ => kind,
        },
        AnnotationKind::Text(_) => kind,
    }
}

/// Applies `change` to `kind` where it applies; returns whether it did.
pub fn apply_annotation_change(kind: &mut AnnotationKind, change: &AnnotationChange) -> (applied: bool)
    ensures
        applied == change_applies(*old(kind), *change),
        *final(kind) == changed_kind(*old(kind), *change),
{
    match kind {
        AnnotationKind::Stroke(s) => match *change {
            AnnotationChange::StrokeColor(c) | AnnotationChange::Color(c) => {
                s.color = c;
                true
            },
            AnnotationChange::StrokeWidth(w) | AnnotationChange::Width(w) => {
                s.width = w;
                true
            },
            _ => false,
        },
        AnnotationKind::Shape(s) => match *change {
            AnnotationChange::ShapeColor(c) | AnnotationChange::Color(c) => {
                s.color = c;
                true
            },
            AnnotationChange::ShapeWidth(w) | AnnotationChange::Width(w) => {
                s.width = w;
                true
            },
            AnnotationChange::ShapeKind(k) => {
                s.shape = k;
                true
            },
            _ => false,
        },
        AnnotationKind::Text(_) => false,
    }
}

/// `after` is `before` with every annotation whose id is in `ids` restyled
/// by `change`.
pub open spec fn restyled_where(
    before: Seq<Annotation>,
    after: Seq<Annotation>,
    ids: Seq<u128>,
    change: AnnotationChange,
) -> bool {
    &&& after.len() == before.len()
    &&& forall|i: int|
        0 <= i < before.len() ==> #[trigger] after[i] == if ids.contains(before[i].id) {
            Annotation { id: before[i].id, kind: changed_kind(before[i].kind, change) }
        } else {
            before[i]
        }
}

/// Whether `change` applies to some annotation whose id is in `ids`.
pub open spec fn applies_to_any(anns: Seq<Annotation>, ids: Seq<u128>, change: AnnotationChange) -> bool {
    exists|i: int|
        0 <= i < anns.len() && ids.contains(#[trigger] anns[i].id) && change_applies(anns[i].kind, change)
}

impl Document {
    /// Restyles, on page `page`, every annotation whose id is in `ids` and
    /// to which `change` applies; returns whether any was restyled.
    pub fn restyle_annotations(&mut self, page: usize, ids: &[u128], change: &AnnotationChange) -> (any: bool)
        ensures
            final(self).source == old(self).source,
            only_annotations_of(old(self).pages@, final(self).pages@, page as int),
            page < old(self).pages@.len() ==> {
                &&& restyled_where(
                    old(self).pages@[page as int].annotations@,
                    final(self).pages@[page as int].annotations@,
                    ids@,
                    *change,
                )
                &&& any == applies_to_any(old(self).pages@[page as int].annotations@, ids@, *change)
            },
            page >= old(self).pages@.len() ==> !any && final(self).pages@ == old(self).pages@,
    {
        if page >= self.pages.len() {
            return false;
        }
        let ghost before = self.pages@[page as int].annotations@;
        let ghost before_page = self.pages@[page as int];
        let p = &mut self.pages[page];
        let mut any = false;
        let mut i: usize = 0;
        while i < p.annotations.len()
            invariant
                i <= p.annotations@.len() == before.len(),
                restyled_where(before.subrange(0, i as int), p.annotations@.subrange(0, i as int), ids@, *change),
                forall|j: int| i <= j < before.len() ==> #[trigger] p.annotations@[j] == before[j],
                any == applies_to_any(before.subrange(0, i as int), ids@, *change),
                p.kind == before_page.kind,
                p.width == before_page.width,
                p.height == before_page.height,
            decreases before.len() - i,
        {
            let ghost prev = p.annotations@;
            let id = p.annotations[i].id;
            if contains_id(ids, id) {
                let a = &mut p.annotations[i];
                let applied = apply_annotation_change(&mut a.kind, change);
                any = any || applied;
            }
            proof {
                assert(p.annotations@[i as int] == if ids@.contains(before[i as int].id) {
                    Annotation { id: before[i as int].id, kind: changed_kind(before[i as int].kind, *change) }
                } else {
                    before[i as int]
                });
                let b = before.subrange(0, i + 1);
                assert(b[i as int] == before[i as int]);
                assert forall|j: int| 0 <= j < i + 1 implies #[trigger] p.annotations@.subrange(0, i + 1)[j]
                    == if ids@.contains(b[j].id) {
                    Annotation { id: b[j].id, kind: changed_kind(b[j].kind, *change) }
                } else {
                    b[j]
                } by {
                    if j < i {
                        assert(before.subrange(0, i as int)[j] == b[j]);
                        assert(prev.subrange(0, i as int)[j] == prev[j]);
                        assert(p.annotations@[j] == prev[j]);
                    }
                };
                if applies_to_any(b, ids@, *change) && !applies_to_any(before.subrange(0, i as int), ids@, *change) {
                    let w = choose|w: int| 0 <= w < b.len() && ids@.contains(#[trigger] b[w].id) && change_applies(b[w].kind, *change);
                    if w < i {
                        assert(before.subrange(0, i as int)[w] == b[w]);
                    }
                }
                if applies_to_any(before.subrange(0, i as int), ids@, *change) {
                    let w = choose|w: int| 0 <= w < i && ids@.contains(#[trigger] before.subrange(0, i as int)[w].id) && change_applies(before.subrange(0, i as int)[w].kind, *change);
                    assert(b[w] == before.subrange(0, i as int)[w]);
                }
            }
            i = i + 1;
        }
        proof {
            assert(before.subrange(0, i as int) =~= before);
            assert(p.annotations@.subrange(0, i as int) =~= p.annotations@);
        }
        any
    }
}

/// `page` with a blank page's ruling replaced; PDF pages are unchanged.
pub open spec fn restyled_blank(page: Page, pattern: PagePattern, spacing: u64) -> Page {
    match page.kind {
        PageKind::Blank { color, .. } => Page {
            kind: PageKind::Blank { color, pattern, pattern_spacing: spacing },
            ..page
        },
        PageKind::Pdf { .. } => page,
    }
}

/// The last PDF page before `index` (all pages, if `index` is past the end).
pub open spec fn last_pdf_before(pages: Seq<Page>, index: int) -> Option<int>
    decreases index,
{
    let end = if index < pages.len() { index } else { pages.len() as int };
    if end <= 0 {
        None
    } else if pages[end - 1].kind is Pdf {
        Some(end - 1)
    } else {
        last_pdf_before(pages, end - 1)
    }
}

/// The first PDF page after `index`.
pub open spec fn first_pdf_after(pages: Seq<Page>, index: int) -> Option<int>
    decreases pages.len() - index,
{
    if index + 1 >= pages.len() {
        None
    } else if pages[index + 1].kind is Pdf {
        Some(index + 1)
    } else {
        first_pdf_after(pages, index + 1)
    }
}

/// Size of the PDF page nearest to page `index`: the closest preceding one,
/// else the closest following one, else A4.
pub open spec fn nearest_pdf_size(pages: Seq<Page>, index: int) -> (u64, u64) {
    match last_pdf_before(pages, index) {
        Some(i) => (pages[i].width, pages[i].height),
        None => match first_pdf_after(pages, index) {
            Some(i) => (pages[i].width, pages[i].height),
            None => (A4_WIDTH, A4_HEIGHT),
        },
    }
}

proof fn lemma_last_pdf_before(pages: Seq<Page>, index: int, i: int)
    requires
        0 <= i < index,
        i < pages.len(),
        pages[i].kind is Pdf,
        forall|j: int| i < j < index && j < pages.len() ==> !(#[trigger] pages[j].kind is Pdf),
    ensures
        last_pdf_before(pages, index) == Some(i),
    decreases index,
{
    let end = if index < pages.len() { index } else { pages.len() as int };
    if end - 1 > i {
        lemma_last_pdf_before(pages, end - 1, i);
    }
}

proof fn lemma_no_pdf_before(pages: Seq<Page>, index: int)
    requires
        index >= 0,
        forall|j: int| 0 <= j < index && j < pages.len() ==> !(#[trigger] pages[j].kind is Pdf),
    ensures
        last_pdf_before(pages, index) is None,
    decreases index,
{
    let end = if index < pages.len() { index } else { pages.len() as int };
    if end > 0 {
        lemma_no_pdf_before(pages, end - 1);
    }
}

proof fn lemma_first_pdf_after(pages: Seq<Page>, index: int, k: int)
    requires
        index < k < pages.len(),
        pages[k].kind is Pdf,
        forall|j: int| index < j < k ==> !(#[trigger] pages[j].kind is Pdf),
    ensures
        first_pdf_after(pages, index) == Some(k),
    decreases k - index,
{
    if index + 1 < k {
        lemma_first_pdf_after(pages, index + 1, k);
    }
}

proof fn lemma_no_pdf_after(pages: Seq<Page>, index: int)
    requires
        forall|j: int| index < j < pages.len() ==> !(#[trigger] pages[j].kind is Pdf),
    ensures
        first_pdf_after(pages, index) is None,
    decreases pages.len() - index,
{
    if index + 1 < pages.len() {
        lemma_no_pdf_after(pages, index + 1);
    }
}

/// The size at `index` of a list of page sizes, or A4 when there is no
/// such entry.
pub fn size_or_a4(sizes: &[(u64, u64)], index: usize) -> (r: (u64, u64))
    ensures
        r == if index < sizes@.len() {
            sizes@[index as int]
        } else {
            (A4_WIDTH, A4_HEIGHT)
        },
{
    if index < sizes.len() {
        sizes[index]
    } else {
        (A4_WIDTH, A4_HEIGHT)
    }
}

/// `bits` is the bit pattern of a NaN: all exponent bits set and a
/// non-zero fraction.
pub open spec fn is_nan_bits(bits: u64) -> bool {
    bits & 0x7ff0_0000_0000_0000 == 0x7ff0_0000_0000_0000 && bits & 0x000f_ffff_ffff_ffff != 0
}

/// `==` on the `f64`s with bit patterns `a` and `b`: a NaN equals nothing,
/// `0.0` equals `-0.0`, and otherwise the patterns must be the same.
pub open spec fn f64_eq(a: u64, b: u64) -> bool {
    &&& !is_nan_bits(a)
    &&& !is_nan_bits(b)
    &&& (a == b || (a & 0x7fff_ffff_ffff_ffff == 0 && b & 0x7fff_ffff_ffff_ffff == 0))
}

/// Two colors are equal channel by channel, as `f64`s.
pub open spec fn same_color(a: Color, b: Color) -> bool {
    f64_eq(a.r, b.r) && f64_eq(a.g, b.g) && f64_eq(a.b, b.b) && f64_eq(a.a, b.a)
}

/// Two styles are equal field by field, colors as `f64`s.
pub open spec fn same_style(a: TextStyle, b: TextStyle) -> bool {
    &&& same_color(a.color, b.color)
    &&& a.font@ == b.font@
    &&& a.bold == b.bold && a.italic == b.italic && a.underline == b.underline
    &&& a.strikethrough == b.strikethrough
    &&& match (a.highlight, b.highlight) {
        (None, None) => true,
        (Some(x), Some(y)) => same_color(x, y),
        _ => false,
    }
}

/// Two runs are the same: the same text in the same style.
pub open spec fn same_run(a: TextRun, b: TextRun) -> bool {
    a.text@ == b.text@ && same_style(a.style, b.style)
}

/// Two run lists hold the same runs, split the same way.
pub open spec fn same_runs(a: Seq<TextRun>, b: Seq<TextRun>) -> bool {
    &&& a.len() == b.len()
    &&& forall|i: int| 0 <= i < a.len() ==> #[trigger] same_run(a[i], b[i])
}

/// Two points are equal coordinate by coordinate, as `f64`s.
pub open spec fn same_point(a: (u64, u64), b: (u64, u64)) -> bool {
    f64_eq(a.0, b.0) && f64_eq(a.1, b.1)
}

/// Two point lists are equal point by point.
pub open spec fn same_points(a: Seq<(u64, u64)>, b: Seq<(u64, u64)>) -> bool {
    &&& a.len() == b.len()
    &&& forall|i: int| 0 <= i < a.len() ==> #[trigger] same_point(a[i], b[i])
}

/// Two annotation bodies are the same: same variant and equal fields,
/// numbers as `f64`s.
pub open spec fn same_kind(a: AnnotationKind, b: AnnotationKind) -> bool {
    match (a, b) {
        (AnnotationKind::Text(x), AnnotationKind::Text(y)) => f64_eq(x.x, y.x) && f64_eq(x.y, y.y) && f64_eq(
            x.size,
            y.size,
        ) && same_runs(x.runs@, y.runs@),
        (AnnotationKind::Stroke(x), AnnotationKind::Stroke(y)) => same_points(x.points@, y.points@)
            && same_color(x.color, y.color) && f64_eq(x.width, y.width),
        (AnnotationKind::Shape(x), AnnotationKind::Shape(y)) => x.shape == y.shape && f64_eq(x.x0, y.x0)
            && f64_eq(x.y0, y.y0) && f64_eq(x.x1, y.x1) && f64_eq(x.y1, y.y1) && same_color(x.color, y.color)
            && f64_eq(x.width, y.width),
        _ => false,
    }
}

/// Two annotations are the same: same id and same body.
pub open spec fn same_annotation(a: Annotation, b: Annotation) -> bool {
    a.id == b.id && same_kind(a.kind, b.kind)
}

/// Two annotation lists are the same, annotation by annotation.
pub open spec fn same_annotations(a: Seq<Annotation>, b: Seq<Annotation>) -> bool {
    &&& a.len() == b.len()
    &&& forall|i: int| 0 <= i < a.len() ==> #[trigger] same_annotation(a[i], b[i])
}

/// Two page kinds are the same: the same PDF page, or blank sheets of equal
/// color, ruling and spacing.
pub open spec fn same_page_kind(a: PageKind, b: PageKind) -> bool {
    match (a, b) {
        (PageKind::Pdf { page_index: i }, PageKind::Pdf { page_index: j }) => i == j,
        (
            PageKind::Blank { color: c, pattern: p, pattern_spacing: s },
            PageKind::Blank { color: d, pattern: q, pattern_spacing: t },
        ) => same_color(c, d) && p == q && f64_eq(s, t),
        _ => false,
    }
}

/// Two pages are the same: kind, size and annotations.
pub open spec fn same_page(a: Page, b: Page) -> bool {
    same_page_kind(a.kind, b.kind) && f64_eq(a.width, b.width) && f64_eq(a.height, b.height)
        && same_annotations(a.annotations@, b.annotations@)
}

/// Two page lists are the same, page by page: what `==` on the pages'
/// `f64` fields says.
pub open spec fn same_pages(a: Seq<Page>, b: Seq<Page>) -> bool {
    &&& a.len() == b.len()
    &&& forall|i: int| 0 <= i < a.len() ==> #[trigger] same_page(a[i], b[i])
}

/// No channel of `c` is a NaN.
pub open spec fn nan_free_color(c: Color) -> bool {
    !is_nan_bits(c.r) && !is_nan_bits(c.g) && !is_nan_bits(c.b) && !is_nan_bits(c.a)
}

/// No color of `s` has a NaN channel.
pub open spec fn nan_free_style(s: TextStyle) -> bool {
    nan_free_color(s.color) && (s.highlight matches Some(h) ==> nan_free_color(h))
}

/// No number of the annotation body `k` is a NaN.
pub open spec fn nan_free_kind(k: AnnotationKind) -> bool {
    match k {
        AnnotationKind::Text(t) => !is_nan_bits(t.x) && !is_nan_bits(t.y) && !is_nan_bits(t.size) && forall|
            i: int,
        |
            0 <= i < t.runs@.len() ==> nan_free_style(#[trigger] t.runs@[i].style),
        AnnotationKind::Stroke(s) => nan_free_color(s.color) && !is_nan_bits(s.width) && forall|i: int|
            0 <= i < s.points@.len() ==> !is_nan_bits((#[trigger] s.points@[i]).0) && !is_nan_bits(
                s.points@[i].1,
            ),
        AnnotationKind::Shape(s) => !is_nan_bits(s.x0) && !is_nan_bits(s.y0) && !is_nan_bits(s.x1)
            && !is_nan_bits(s.y1) && nan_free_color(s.color) && !is_nan_bits(s.width),
    }
}

/// No number of the page `p` is a NaN.
pub open spec fn nan_free_page(p: Page) -> bool {
    &&& !is_nan_bits(p.width) && !is_nan_bits(p.height)
    &&& (p.kind matches PageKind::Blank { color, pattern_spacing, .. } ==> nan_free_color(color) && !is_nan_bits(
        pattern_spacing,
    ))
    &&& forall|i: int| 0 <= i < p.annotations@.len() ==> nan_free_kind(#[trigger] p.annotations@[i].kind)
}

/// No number of any of `pages` is a NaN.
pub open spec fn nan_free_pages(pages: Seq<Page>) -> bool {
    forall|i: int| 0 <= i < pages.len() ==> nan_free_page(#[trigger] pages[i])
}

/// `==` on `f64`s, on their bit patterns: a NaN equals nothing, any other
/// number equals itself, the order does not matter, and the only distinct
/// patterns that are equal are those of `0.0` and `-0.0`.
pub proof fn lemma_f64_eq(a: u64, b: u64)
    ensures
        is_nan_bits(a) ==> !f64_eq(a, b),
        !is_nan_bits(a) ==> f64_eq(a, a),
        f64_eq(a, b) == f64_eq(b, a),
        f64_eq(a, b) && a != b ==> (a == 0 && b == 0x8000_0000_0000_0000) || (a == 0x8000_0000_0000_0000
            && b == 0),
        f64_eq(0, 0x8000_0000_0000_0000),
{
    assert(a & 0x7fff_ffff_ffff_ffff == 0 ==> a == 0 || a == 0x8000_0000_0000_0000) by (bit_vector);
    assert(b & 0x7fff_ffff_ffff_ffff == 0 ==> b == 0 || b == 0x8000_0000_0000_0000) by (bit_vector);
    assert(!is_nan_bits(0) && !is_nan_bits(0x8000_0000_0000_0000)) by (bit_vector);
    assert(0u64 & 0x7fff_ffff_ffff_ffff == 0 && 0x8000_0000_0000_0000u64 & 0x7fff_ffff_ffff_ffff == 0)
        by (bit_vector);
}

/// Styles that are the same agree on every attribute: the flags, the font,
/// whether there is a highlight, and (as `f64`s) the color and highlight
/// channels. Identical styles whose colors hold no NaN are the same.
pub proof fn lemma_same_style_sees_every_attribute(a: TextStyle, b: TextStyle)
    ensures
        same_style(a, b) ==> {
            &&& a.bold == b.bold && a.italic == b.italic
            &&& a.underline == b.underline && a.strikethrough == b.strikethrough
            &&& a.font@ == b.font@
            &&& (a.highlight is Some <==> b.highlight is Some)
            &&& f64_eq(a.color.r, b.color.r) && f64_eq(a.color.g, b.color.g)
            &&& f64_eq(a.color.b, b.color.b) && f64_eq(a.color.a, b.color.a)
            &&& (a.highlight matches Some(x) ==> b.highlight matches Some(y) && f64_eq(x.r, y.r) && f64_eq(
                x.g,
                y.g,
            ) && f64_eq(x.b, y.b) && f64_eq(x.a, y.a))
        },
        a@ == b@ && nan_free_style(a) ==> same_style(a, b),
{
    if a@ == b@ && nan_free_style(a) {
        lemma_f64_eq(a.color.r, a.color.r);
        lemma_f64_eq(a.color.g, a.color.g);
        lemma_f64_eq(a.color.b, a.color.b);
        lemma_f64_eq(a.color.a, a.color.a);
        if let Some(h) = a.highlight {
            lemma_f64_eq(h.r, h.r);
            lemma_f64_eq(h.g, h.g);
            lemma_f64_eq(h.b, h.b);
            lemma_f64_eq(h.a, h.a);
        }
    }
}

/// Annotation bodies that are the same are of one variant and agree on
/// their contents: a text box's position, size, and every run's text and
/// style; a stroke's points, color and width; a shape's kind, corners, color
/// and width (numbers as `f64`s).
pub proof fn lemma_same_kind_sees_contents(k: AnnotationKind, l: AnnotationKind)
    ensures
        same_kind(k, l) ==> match (k, l) {
            (AnnotationKind::Text(t), AnnotationKind::Text(u)) => {
                &&& f64_eq(t.x, u.x) && f64_eq(t.y, u.y) && f64_eq(t.size, u.size)
                &&& t.runs@.len() == u.runs@.len()
                &&& forall|m: int|
                    0 <= m < t.runs@.len() ==> #[trigger] t.runs@[m].text@ == u.runs@[m].text@ && same_style(
                        t.runs@[m].style,
                        u.runs@[m].style,
                    )
            },
            (AnnotationKind::Stroke(s), AnnotationKind::Stroke(v)) => {
                &&& s.points@.len() == v.points@.len()
                &&& forall|m: int|
                    0 <= m < s.points@.len() ==> f64_eq((#[trigger] s.points@[m]).0, v.points@[m].0) && f64_eq(
                        s.points@[m].1,
                        v.points@[m].1,
                    )
                &&& same_color(s.color, v.color) && f64_eq(s.width, v.width)
            },
            (AnnotationKind::Shape(s), AnnotationKind::Shape(v)) => {
                &&& s.shape == v.shape
                &&& f64_eq(s.x0, v.x0) && f64_eq(s.y0, v.y0) && f64_eq(s.x1, v.x1) && f64_eq(s.y1, v.y1)
                &&& same_color(s.color, v.color) && f64_eq(s.width, v.width)
            },
            _ => false,
        },
{
    if same_kind(k, l) {
        if let (AnnotationKind::Text(t), AnnotationKind::Text(u)) = (k, l) {
            assert forall|m: int| 0 <= m < t.runs@.len() implies #[trigger] t.runs@[m].text@
                == u.runs@[m].text@ && same_style(t.runs@[m].style, u.runs@[m].style) by {
                assert(same_run(t.runs@[m], u.runs@[m]));
            }
        }
        if let (AnnotationKind::Stroke(s), AnnotationKind::Stroke(v)) = (k, l) {
            assert forall|m: int| 0 <= m < s.points@.len() implies f64_eq(
                (#[trigger] s.points@[m]).0,
                v.points@[m].0,
            ) && f64_eq(s.points@[m].1, v.points@[m].1) by {
                assert(same_point(s.points@[m], v.points@[m]));
            }
        }
    }
}

/// Pages that are the same agree on their kind (the same PDF page, or blank
/// sheets of one color, ruling and spacing), their size, and their
/// annotations, one by one: same ids and same bodies.
pub proof fn lemma_same_page_sees_contents(p: Page, q: Page)
    ensures
        same_page(p, q) ==> {
            &&& f64_eq(p.width, q.width) && f64_eq(p.height, q.height)
            &&& match (p.kind, q.kind) {
                (PageKind::Pdf { page_index: i }, PageKind::Pdf { page_index: j }) => i == j,
                (
                    PageKind::Blank { color: c, pattern: r, pattern_spacing: t },
                    PageKind::Blank { color: d, pattern: u, pattern_spacing: v },
                ) => same_color(c, d) && r == u && f64_eq(t, v),
                _ => false,
            }
            &&& p.annotations@.len() == q.annotations@.len()
            &&& forall|j: int|
                0 <= j < p.annotations@.len() ==> #[trigger] p.annotations@[j].id == q.annotations@[j].id
                    && same_kind(p.annotations@[j].kind, q.annotations@[j].kind)
        },
{
    if same_page(p, q) {
        assert forall|j: int| 0 <= j < p.annotations@.len() implies #[trigger] p.annotations@[j].id
            == q.annotations@[j].id && same_kind(p.annotations@[j].kind, q.annotations@[j].kind) by {
            assert(same_annotation(p.annotations@[j], q.annotations@[j]));
        }
    }
}

/// What a restyling does to one annotation: a width change (`StrokeWidth`
/// for strokes, `ShapeWidth` for shapes, `Width` for both) applies and sets
/// the width, a color change likewise sets the color, and `ShapeKind` sets a
/// shape's kind; every other field is kept. A change meant for the other
/// kind of annotation, and any change to a text box, does not apply and
/// leaves the annotation as it was.
pub proof fn lemma_annotation_change_effects(kind: AnnotationKind, change: AnnotationChange)
    ensures
        !change_applies(kind, change) ==> changed_kind(kind, change) == kind,
        kind is Text ==> !change_applies(kind, change),
        kind matches AnnotationKind::Stroke(s) ==> match change {
            AnnotationChange::StrokeWidth(w) => change_applies(kind, change) && changed_kind(kind, change)
                == AnnotationKind::Stroke(StrokeAnnotation { width: w, ..s }),
            AnnotationChange::Width(w) => change_applies(kind, change) && changed_kind(kind, change)
                == AnnotationKind::Stroke(StrokeAnnotation { width: w, ..s }),
            AnnotationChange::StrokeColor(c) => change_applies(kind, change) && changed_kind(kind, change)
                == AnnotationKind::Stroke(StrokeAnnotation { color: c, ..s }),
            AnnotationChange::Color(c) => change_applies(kind, change) && changed_kind(kind, change)
                == AnnotationKind::Stroke(StrokeAnnotation { color: c, ..s }),
            _ => !change_applies(kind, change),
        },
        kind matches AnnotationKind::Shape(s) ==> match change {
            AnnotationChange::ShapeWidth(w) => change_applies(kind, change) && changed_kind(kind, change)
                == AnnotationKind::Shape(ShapeAnnotation { width: w, ..s }),
            AnnotationChange::Width(w) => change_applies(kind, change) && changed_kind(kind, change)
                == AnnotationKind::Shape(ShapeAnnotation { width: w, ..s }),
            AnnotationChange::ShapeColor(c) => change_applies(kind, change) && changed_kind(kind, change)
                == AnnotationKind::Shape(ShapeAnnotation { color: c, ..s }),
            AnnotationChange::Color(c) => change_applies(kind, change) && changed_kind(kind, change)
                == AnnotationKind::Shape(ShapeAnnotation { color: c, ..s }),
            AnnotationChange::ShapeKind(k) => change_applies(kind, change) && changed_kind(kind, change)
                == AnnotationKind::Shape(ShapeAnnotation { shape: k, ..s }),
            _ => !change_applies(kind, change),
        },
{
}

/// Whether the `f64`s with bit patterns `a` and `b` are equal.
pub fn f64_bits_eq(a: u64, b: u64) -> (r: bool)
    ensures
        r == f64_eq(a, b),
{
    let a_nan = a & 0x7ff0_0000_0000_0000 == 0x7ff0_0000_0000_0000 && a & 0x000f_ffff_ffff_ffff != 0;
    let b_nan = b & 0x7ff0_0000_0000_0000 == 0x7ff0_0000_0000_0000 && b & 0x000f_ffff_ffff_ffff != 0;
    !a_nan && !b_nan && (a == b || (a & 0x7fff_ffff_ffff_ffff == 0 && b & 0x7fff_ffff_ffff_ffff == 0))
}

/// Whether two colors are equal channel by channel.
pub fn color_equal(a: Color, b: Color) -> (r: bool)
    ensures
        r == same_color(a, b),
{
    f64_bits_eq(a.r, b.r) && f64_bits_eq(a.g, b.g) && f64_bits_eq(a.b, b.b) && f64_bits_eq(a.a, b.a)
}

/// Whether two styles are equal field by field.
pub fn style_equal(a: &TextStyle, b: &TextStyle) -> (r: bool)
    ensures
        r == same_style(*a, *b),
{
    let highlights = match (a.highlight, b.highlight) {
        (None, None) => true,
        (Some(x), Some(y)) => color_equal(x, y),
        _ => false,
    };
    color_equal(a.color, b.color) && a.font == b.font && a.bold == b.bold && a.italic == b.italic
        && a.underline == b.underline && a.strikethrough == b.strikethrough && highlights
}

/// Whether two run lists hold the same runs.
pub fn runs_equal(a: &[TextRun], b: &[TextRun]) -> (r: bool)
    ensures
        r == same_runs(a@, b@),
{
    if a.len() != b.len() {
        return false;
    }
    let mut i: usize = 0;
    while i < a.len()
        invariant
            a@.len() == b@.len(),
            i <= a@.len(),
            forall|j: int| 0 <= j < i ==> #[trigger] same_run(a@[j], b@[j]),
        decreases a@.len() - i,
    {
        if !(a[i].text == b[i].text) || !style_equal(&a[i].style, &b[i].style) {
            assert(!same_run(a@[i as int], b@[i as int]));
            return false;
        }
        assert(same_run(a@[i as int], b@[i as int]));
        i = i + 1;
    }
    true
}

/// Whether two point lists are equal point by point.
fn points_equal(a: &[(u64, u64)], b: &[(u64, u64)]) -> (r: bool)
    ensures
        r == same_points(a@, b@),
{
    if a.len() != b.len() {
        return false;
    }
    let mut i: usize = 0;
    while i < a.len()
        invariant
            a@.len() == b@.len(),
            i <= a@.len(),
            forall|j: int| 0 <= j < i ==> #[trigger] same_point(a@[j], b@[j]),
        decreases a@.len() - i,
    {
        if !f64_bits_eq(a[i].0, b[i].0) || !f64_bits_eq(a[i].1, b[i].1) {
            assert(!same_point(a@[i as int], b@[i as int]));
            return false;
        }
        assert(same_point(a@[i as int], b@[i as int]));
        i = i + 1;
    }
    true
}

/// Whether two annotation bodies are the same.
pub fn kinds_equal(a: &AnnotationKind, b: &AnnotationKind) -> (r: bool)
    ensures
        r == same_kind(*a, *b),
{
    match (a, b) {
        (AnnotationKind::Text(x), AnnotationKind::Text(y)) => f64_bits_eq(x.x, y.x) && f64_bits_eq(x.y, y.y)
            && f64_bits_eq(x.size, y.size) && runs_equal(x.runs.as_slice(), y.runs.as_slice()),
        (AnnotationKind::Stroke(x), AnnotationKind::Stroke(y)) => points_equal(
            x.points.as_slice(),
            y.points.as_slice(),
        ) && color_equal(x.color, y.color) && f64_bits_eq(x.width, y.width),
        (AnnotationKind::Shape(x), AnnotationKind::Shape(y)) => x.shape == y.shape && f64_bits_eq(x.x0, y.x0)
            && f64_bits_eq(x.y0, y.y0) && f64_bits_eq(x.x1, y.x1) && f64_bits_eq(x.y1, y.y1) && color_equal(
            x.color,
            y.color,
        ) && f64_bits_eq(x.width, y.width),
        _ => false,
    }
}

/// Whether two annotation lists are the same.
pub fn annotations_equal(a: &[Annotation], b: &[Annotation]) -> (r: bool)
    ensures
        r == same_annotations(a@, b@),
{
    if a.len() != b.len() {
        return false;
    }
    let mut i: usize = 0;
    while i < a.len()
        invariant
            a@.len() == b@.len(),
            i <= a@.len(),
            forall|j: int| 0 <= j < i ==> #[trigger] same_annotation(a@[j], b@[j]),
        decreases a@.len() - i,
    {
        if a[i].id != b[i].id || !kinds_equal(&a[i].kind, &b[i].kind) {
            assert(!same_annotation(a@[i as int], b@[i as int]));
            return false;
        }
        assert(same_annotation(a@[i as int], b@[i as int]));
        i = i + 1;
    }
    true
}

/// Whether two page kinds are the same.
fn page_kinds_equal(a: &PageKind, b: &PageKind) -> (r: bool)
    ensures
        r == same_page_kind(*a, *b),
{
    match (a, b) {
        (PageKind::Pdf { page_index: i }, PageKind::Pdf { page_index: j }) => *i == *j,
        (
            PageKind::Blank { color: c, pattern: p, pattern_spacing: s },
            PageKind::Blank { color: d, pattern: q, pattern_spacing: t },
        ) => color_equal(*c, *d) && *p == *q && f64_bits_eq(*s, *t),
        _ => false,
    }
}

/// Whether two pages are the same.
pub fn page_equal(a: &Page, b: &Page) -> (r: bool)
    ensures
        r == same_page(*a, *b),
{
    page_kinds_equal(&a.kind, &b.kind) && f64_bits_eq(a.width, b.width) && f64_bits_eq(a.height, b.height)
        && annotations_equal(a.annotations.as_slice(), b.annotations.as_slice())
}

/// Whether two page lists are the same.
pub fn pages_equal(a: &[Page], b: &[Page]) -> (r: bool)
    ensures
        r == same_pages(a@, b@),
{
    if a.len() != b.len() {
        return false;
    }
    let mut i: usize = 0;
    while i < a.len()
        invariant
            a@.len() == b@.len(),
            i <= a@.len(),
            forall|j: int| 0 <= j < i ==> #[trigger] same_page(a@[j], b@[j]),
        decreases a@.len() - i,
    {
        if !page_equal(&a[i], &b[i]) {
            assert(!same_page(a@[i as int], b@[i as int]));
            return false;
        }
        i = i + 1;
    }
    true
}

} // verus!
