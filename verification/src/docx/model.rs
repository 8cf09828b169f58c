//! The document model: a flat list of paragraphs, each with an optional style and
//! its runs of text, and an optional page header.
use vstd::prelude::*;
use crate::text::chars_of;
use crate::text::lines;
use crate::text::split_lines;
use crate::text::string_of;

verus! {

broadcast use vstd::string::group_string_axioms;

/// A document.
pub struct Document {
    pub paragraphs: Vec<Paragraph>,
    pub header: Option<String>,
}

/// One paragraph.
#[derive(Debug, Clone)]
pub struct Paragraph {
    pub style: Option<String>,
    pub runs: Vec<Run>,
}

/// A run of text inside a paragraph.
#[derive(Debug, Clone)]
pub struct Run {
    pub text: String,
}

/// What a [`Paragraph`] holds, as mathematical values.
pub struct ParagraphView {
    pub style: Option<Seq<char>>,
    pub runs: Seq<Seq<char>>,
}

/// What a [`Document`] holds, as mathematical values.
pub struct DocumentView {
    pub paragraphs: Seq<ParagraphView>,
    pub header: Option<Seq<char>>,
}

impl View for Run {
    type V = Seq<char>;

    open spec fn view(&self) -> Seq<char> {
        self.text@
    }
}

/// The view of an optional string.
pub open spec fn opt_view(s: Option<String>) -> Option<Seq<char>> {
    match s {
        Some(t) => Some(t@),
        None => None,
    }
}

impl View for Paragraph {
    type V = ParagraphView;

    open spec fn view(&self) -> ParagraphView {
        ParagraphView { style: opt_view(self.style), runs: self.runs@.map_values(|r: Run| r@) }
    }
}

impl View for Document {
    type V = DocumentView;

    open spec fn view(&self) -> DocumentView {
        DocumentView {
            paragraphs: self.paragraphs@.map_values(|p: Paragraph| p@),
            header: opt_view(self.header),
        }
    }
}

/// The style name of file headings.
pub open spec fn heading_style() -> Seq<char> {
    "Heading1"@
}

/// The prefix that marks a style as a heading style.
pub open spec fn heading_prefix() -> Seq<char> {
    "Heading"@
}

/// A paragraph is a heading when its style name starts with `Heading`.
pub open spec fn is_heading_view(p: ParagraphView) -> bool {
    match p.style {
        Some(s) => s.len() >= heading_prefix().len() && s.take(heading_prefix().len() as int)
            == heading_prefix(),
        None => false,
    }
}

/// The heading paragraph for `text`: style `Heading1`, one run.
pub open spec fn heading_paragraph(text: Seq<char>) -> ParagraphView {
    ParagraphView { style: Some(heading_style()), runs: seq![text] }
}

/// A body paragraph holding one line.
pub open spec fn body_paragraph(line: Seq<char>) -> ParagraphView {
    ParagraphView { style: None, runs: seq![line] }
}

/// One body paragraph per line of `text` (see [`lines`]).
pub open spec fn text_paragraphs(text: Seq<char>) -> Seq<ParagraphView> {
    lines(text).map_values(|l: Seq<char>| body_paragraph(l))
}

fn one_run(text: &[char]) -> (r: Vec<Run>)
    ensures
        r@.map_values(|x: Run| x@) == seq![text@],
{
    let mut r: Vec<Run> = Vec::new();
    r.push(Run { text: string_of(text) });
    assert(r@.map_values(|x: Run| x@) =~= seq![text@]);
    r
}

impl Document {
    /// An empty document without header.
    pub fn new() -> (r: Self)
        ensures
            r@ == (DocumentView { paragraphs: Seq::empty(), header: None }),
    {
        let d = Document { paragraphs: Vec::new(), header: None };
        assert(d@.paragraphs =~= Seq::<ParagraphView>::empty());
        d
    }

    /// Appends a `Heading1` paragraph holding `text`.
    pub fn add_heading(&mut self, text: &str)
        ensures
            final(self)@ == (DocumentView {
                paragraphs: old(self)@.paragraphs.push(heading_paragraph(text@)),
                header: old(self)@.header,
            }),
    {
        let style = "Heading1".to_string();
        let t = chars_of(text);
        let p = Paragraph { style: Some(style), runs: one_run(t.as_slice()) };
        assert(p@ == heading_paragraph(text@));
        let ghost before = self@.paragraphs;
        self.paragraphs.push(p);
        assert(self@.paragraphs =~= before.push(heading_paragraph(text@)));
    }

    /// Appends one body paragraph per line of `text`.
    pub fn add_text(&mut self, text: &str)
        ensures
            final(self)@ == (DocumentView {
                paragraphs: old(self)@.paragraphs + text_paragraphs(text@),
                header: old(self)@.header,
            }),
    {
        let cs = chars_of(text);
        let ls = split_lines(&cs);
        let ghost start = self@.paragraphs;
        let ghost tp = text_paragraphs(text@);
        let mut i: usize = 0;
        while i < ls.len()
            invariant
                i <= ls.len(),
                ls@.len() == lines(text@).len(),
                forall|k: int| 0 <= k < ls@.len() ==> #[trigger] ls@[k]@ == lines(text@)[k],
                tp == text_paragraphs(text@),
                self@.paragraphs == start + tp.take(i as int),
                self@.header == old(self)@.header,
            decreases ls.len() - i,
        {
            let ghost before = self@.paragraphs;
            let p = Paragraph { style: None, runs: one_run(ls[i].as_slice()) };
            assert(p@ == tp[i as int]);
            self.paragraphs.push(p);
            assert(self@.paragraphs =~= before.push(tp[i as int]));
            assert(tp.take(i + 1) =~= tp.take(i as int).push(tp[i as int]));
            i += 1;
        }
        assert(tp.take(ls.len() as int) =~= tp);
    }

    /// Sets the page header text.
    pub fn set_header(&mut self, header: &str)
        ensures
            final(self)@ == (DocumentView {
                paragraphs: old(self)@.paragraphs,
                header: Some(header@),
            }),
    {
        let cs = chars_of(header);
        self.header = Some(string_of(cs.as_slice()));
    }
}

impl Paragraph {
    /// Whether the paragraph's style name starts with `Heading`.
    pub fn is_heading(&self) -> (r: bool)
        ensures
            r == is_heading_view(self@),
    {
        match &self.style {
            Some(s) => {
                let cs = chars_of(s.as_str());
                let prefix = chars_of("Heading");
                assert(self@.style == Some(cs@));
                assert(prefix@ == heading_prefix());
                if cs.len() < prefix.len() {
                    return false;
                }
                let mut i: usize = 0;
                while i < prefix.len()
                    invariant
                        i <= prefix.len() <= cs.len(),
                        self@.style == Some(cs@),
                        prefix@ == heading_prefix(),
                        forall|j: int| 0 <= j < i ==> cs@[j] == prefix@[j],
                    decreases prefix.len() - i,
                {
                    if cs[i] != prefix[i] {
                        assert(cs@.take(prefix.len() as int)[i as int] != prefix@[i as int]);
                        return false;
                    }
                    i += 1;
                }
                assert(cs@.take(prefix.len() as int) =~= prefix@);
                true
            },
            None => false,
        }
    }
}

impl Default for Document {
    fn default() -> (r: Self)
        ensures
            r@ == (DocumentView { paragraphs: Seq::empty(), header: None }),
    {
        Self::new()
    }
}

} // verus!
