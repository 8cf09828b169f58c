//! The styles part: the paragraph styles that packed documents use.
use vstd::prelude::*;
use crate::text::decimal;
use crate::text::push_decimal;
use crate::text::push_str;

verus! {

broadcast use vstd::string::group_string_axioms;

/// One paragraph style.
pub struct StyleDef {
    pub style_id: &'static str,
    pub name: &'static str,
    pub next: Option<&'static str>,
    pub outline_lvl: Option<u8>,
    pub bold: bool,
    pub font_size_half_pts: u32,
    pub spacing_before_pt: u32,
    pub spacing_after_pt: u32,
    pub keep_next: bool,
    pub keep_lines: bool,
}

pub const STYLES_HEAD: &'static str = "<?xml version=\"1.0\" encoding=\"UTF-8\" standalone=\"yes\"?>\n<w:styles xmlns:w=\"http://schemas.openxmlformats.org/wordprocessingml/2006/main\">\n";

pub const STYLES_TAIL: &'static str = "</w:styles>";

pub const STYLE_OPEN: &'static str = "  <w:style w:type=\"paragraph\" w:styleId=\"";

pub const STYLE_OPEN_END: &'static str = "\">\n";

pub const NAME_OPEN: &'static str = "    <w:name w:val=\"";

pub const NEXT_OPEN: &'static str = "    <w:next w:val=\"";

pub const VAL_CLOSE: &'static str = "\"/>\n";

pub const PPR_OPEN: &'static str = "    <w:pPr>\n";

pub const KEEP_NEXT: &'static str = "      <w:keepNext/>\n";

pub const KEEP_LINES: &'static str = "      <w:keepLines/>\n";

pub const SPACING_BEFORE: &'static str = "      <w:spacing w:before=\"";

pub const SPACING_AFTER: &'static str = "\" w:after=\"";

pub const OUTLINE_OPEN: &'static str = "      <w:outlineLvl w:val=\"";

pub const PPR_CLOSE: &'static str = "    </w:pPr>\n";

pub const RPR_OPEN: &'static str = "    <w:rPr>\n";

pub const BOLD: &'static str = "      <w:b/>\n";

pub const SIZE_OPEN: &'static str = "      <w:sz w:val=\"";

pub const SIZE_CS_OPEN: &'static str = "      <w:szCs w:val=\"";

pub const RPR_CLOSE: &'static str = "    </w:rPr>\n";

pub const STYLE_CLOSE: &'static str = "  </w:style>\n";

/// The styles of packed documents: `Normal`, `Heading1` and `Heading2`.
pub open spec fn default_styles_spec() -> Seq<StyleDef> {
    seq![
        StyleDef {
            style_id: "Normal",
            name: "Normal",
            next: None,
            outline_lvl: None,
            bold: false,
            font_size_half_pts: 22,
            spacing_before_pt: 0,
            spacing_after_pt: 0,
            keep_next: false,
            keep_lines: false,
        },
        StyleDef {
            style_id: "Heading1",
            name: "heading 1",
            next: Some("Normal"),
            outline_lvl: Some(0),
            bold: true,
            font_size_half_pts: 48,
            spacing_before_pt: 24,
            spacing_after_pt: 12,
            keep_next: true,
            keep_lines: true,
        },
        StyleDef {
            style_id: "Heading2",
            name: "heading 2",
            next: Some("Normal"),
            outline_lvl: Some(1),
            bold: true,
            font_size_half_pts: 36,
            spacing_before_pt: 12,
            spacing_after_pt: 6,
            keep_next: true,
            keep_lines: true,
        },
    ]
}

fn default_styles() -> (r: Vec<StyleDef>)
    ensures
        r@ == default_styles_spec(),
{
    let mut v: Vec<StyleDef> = Vec::new();
    v.push(StyleDef {
        style_id: "Normal",
        name: "Normal",
        next: None,
        outline_lvl: None,
        bold: false,
        font_size_half_pts: 22,
        spacing_before_pt: 0,
        spacing_after_pt: 0,
        keep_next: false,
        keep_lines: false,
    });
    v.push(StyleDef {
        style_id: "Heading1",
        name: "heading 1",
        next: Some("Normal"),
        outline_lvl: Some(0),
        bold: true,
        font_size_half_pts: 48,
        spacing_before_pt: 24,
        spacing_after_pt: 12,
        keep_next: true,
        keep_lines: true,
    });
    v.push(StyleDef {
        style_id: "Heading2",
        name: "heading 2",
        next: Some("Normal"),
        outline_lvl: Some(1),
        bold: true,
        font_size_half_pts: 36,
        spacing_before_pt: 12,
        spacing_after_pt: 6,
        keep_next: true,
        keep_lines: true,
    });
    assert(v@ =~= default_styles_spec());
    v
}

/// Points in twentieths of a point, the unit of OOXML spacing.
pub fn pt_to_twips(pt: u32) -> (r: u32)
    requires
        pt * 20 <= u32::MAX,
    ensures
        r == pt * 20,
{
    pt * 20
}

/// A style has paragraph properties when it keeps with the next or its lines
/// together, has spacing, or has an outline level.
pub open spec fn has_paragraph_props(d: StyleDef) -> bool {
    d.keep_next || d.keep_lines || d.spacing_before_pt > 0 || d.spacing_after_pt > 0
        || d.outline_lvl is Some
}

/// `s` when `cond` holds, else nothing.
pub open spec fn when(cond: bool, s: Seq<char>) -> Seq<char> {
    if cond { s } else { Seq::empty() }
}

/// The spacing element, in twentieths of a point.
pub open spec fn spacing_xml(before: nat, after: nat) -> Seq<char> {
    SPACING_BEFORE@ + decimal(before) + SPACING_AFTER@ + decimal(after) + VAL_CLOSE@
}

/// The outline level element, if the style has a level.
pub open spec fn outline_xml(l: Option<u8>) -> Seq<char> {
    match l {
        Some(l) => OUTLINE_OPEN@ + decimal(l as nat) + VAL_CLOSE@,
        None => Seq::empty(),
    }
}

/// The paragraph properties of a style.
pub open spec fn paragraph_props_xml(d: StyleDef) -> Seq<char> {
    PPR_OPEN@ + when(d.keep_next, KEEP_NEXT@) + when(d.keep_lines, KEEP_LINES@) + when(
        d.spacing_before_pt > 0 || d.spacing_after_pt > 0,
        spacing_xml(d.spacing_before_pt as nat * 20, d.spacing_after_pt as nat * 20),
    ) + outline_xml(d.outline_lvl) + PPR_CLOSE@
}

/// The run properties of a bold style.
pub open spec fn run_props_xml(d: StyleDef) -> Seq<char> {
    RPR_OPEN@ + BOLD@ + SIZE_OPEN@ + decimal(d.font_size_half_pts as nat) + VAL_CLOSE@
        + SIZE_CS_OPEN@ + decimal(d.font_size_half_pts as nat) + VAL_CLOSE@ + RPR_CLOSE@
}

/// The element naming the style that follows, if any.
pub open spec fn next_xml(n: Option<&'static str>) -> Seq<char> {
    match n {
        Some(n) => NEXT_OPEN@ + n@ + VAL_CLOSE@,
        None => Seq::empty(),
    }
}

/// The XML of one style.
pub open spec fn style_xml(d: StyleDef) -> Seq<char> {
    STYLE_OPEN@ + d.style_id@ + STYLE_OPEN_END@ + NAME_OPEN@ + d.name@ + VAL_CLOSE@ + next_xml(d.next)
        + when(has_paragraph_props(d), paragraph_props_xml(d)) + when(d.bold, run_props_xml(d))
        + STYLE_CLOSE@
}

/// The XML of a list of styles, in order.
pub open spec fn styles_xml(ds: Seq<StyleDef>) -> Seq<char>
    decreases ds.len(),
{
    if ds.len() == 0 {
        Seq::empty()
    } else {
        styles_xml(ds.drop_last()) + style_xml(ds.last())
    }
}

fn push_when(out: &mut String, cond: bool, s: &str)
    ensures
        final(out)@ == old(out)@ + when(cond, s@),
{
    if cond {
        push_str(out, s);
    } else {
        assert(out@ + when(cond, s@) =~= out@);
    }
}

fn spacing_string(before: u32, after: u32) -> (r: String)
    ensures
        r@ == spacing_xml(before as nat, after as nat),
{
    let mut out = String::new();
    push_str(&mut out, SPACING_BEFORE);
    push_decimal(&mut out, before as u64);
    push_str(&mut out, SPACING_AFTER);
    push_decimal(&mut out, after as u64);
    push_str(&mut out, VAL_CLOSE);
    assert(out@ =~= spacing_xml(before as nat, after as nat));
    out
}

fn outline_string(l: Option<u8>) -> (r: String)
    ensures
        r@ == outline_xml(l),
{
    let mut out = String::new();
    match l {
        Some(l) => {
            push_str(&mut out, OUTLINE_OPEN);
            push_decimal(&mut out, l as u64);
            push_str(&mut out, VAL_CLOSE);
        },
        None => {},
    }
    assert(out@ =~= outline_xml(l));
    out
}

fn paragraph_props_string(d: &StyleDef) -> (r: String)
    requires
        d.spacing_before_pt * 20 <= u32::MAX,
        d.spacing_after_pt * 20 <= u32::MAX,
    ensures
        r@ == paragraph_props_xml(*d),
{
    let mut out = String::new();
    push_str(&mut out, PPR_OPEN);
    push_when(&mut out, d.keep_next, KEEP_NEXT);
    push_when(&mut out, d.keep_lines, KEEP_LINES);
    let spacing = if d.spacing_before_pt > 0 || d.spacing_after_pt > 0 {
        spacing_string(pt_to_twips(d.spacing_before_pt), pt_to_twips(d.spacing_after_pt))
    } else {
        String::new()
    };
    push_str(&mut out, spacing.as_str());
    let outline = outline_string(d.outline_lvl);
    push_str(&mut out, outline.as_str());
    push_str(&mut out, PPR_CLOSE);
    assert(Seq::<char>::empty() + PPR_OPEN@ == PPR_OPEN@);
    out
}

fn run_props_string(d: &StyleDef) -> (r: String)
    ensures
        r@ == run_props_xml(*d),
{
    let mut out = String::new();
    push_str(&mut out, RPR_OPEN);
    push_str(&mut out, BOLD);
    push_str(&mut out, SIZE_OPEN);
    push_decimal(&mut out, d.font_size_half_pts as u64);
    push_str(&mut out, VAL_CLOSE);
    push_str(&mut out, SIZE_CS_OPEN);
    push_decimal(&mut out, d.font_size_half_pts as u64);
    push_str(&mut out, VAL_CLOSE);
    push_str(&mut out, RPR_CLOSE);
    assert(Seq::<char>::empty() + RPR_OPEN@ == RPR_OPEN@);
    out
}

fn next_string(n: Option<&'static str>) -> (r: String)
    ensures
        r@ == next_xml(n),
{
    let mut out = String::new();
    match n {
        Some(n) => {
            push_str(&mut out, NEXT_OPEN);
            push_str(&mut out, n);
            push_str(&mut out, VAL_CLOSE);
        },
        None => {},
    }
    assert(out@ =~= next_xml(n));
    out
}

fn style_string(d: &StyleDef) -> (r: String)
    requires
        d.spacing_before_pt * 20 <= u32::MAX,
        d.spacing_after_pt * 20 <= u32::MAX,
    ensures
        r@ == style_xml(*d),
{
    let mut out = String::new();
    push_str(&mut out, STYLE_OPEN);
    push_str(&mut out, d.style_id);
    push_str(&mut out, STYLE_OPEN_END);
    push_str(&mut out, NAME_OPEN);
    push_str(&mut out, d.name);
    push_str(&mut out, VAL_CLOSE);
    let next = next_string(d.next);
    push_str(&mut out, next.as_str());
    let has_p_pr = d.keep_next || d.keep_lines || d.spacing_before_pt > 0 || d.spacing_after_pt > 0
        || d.outline_lvl.is_some();
    let ppr = if has_p_pr { paragraph_props_string(d) } else { String::new() };
    push_str(&mut out, ppr.as_str());
    let rpr = if d.bold { run_props_string(d) } else { String::new() };
    push_str(&mut out, rpr.as_str());
    push_str(&mut out, STYLE_CLOSE);
    assert(Seq::<char>::empty() + STYLE_OPEN@ == STYLE_OPEN@);
    out
}

/// The styles part of packed documents.
pub fn generate_styles_xml() -> (r: String)
    ensures
        r@ == STYLES_HEAD@ + styles_xml(default_styles_spec()) + STYLES_TAIL@,
{
    let styles = default_styles();
    let mut xml = String::new();
    push_str(&mut xml, STYLES_HEAD);
    let ghost o = xml@;
    let ghost ds = default_styles_spec();
    let mut i: usize = 0;
    while i < styles.len()
        invariant
            i <= styles.len(),
            styles@ == ds,
            ds == default_styles_spec(),
            xml@ == o + styles_xml(ds.take(i as int)),
        decreases styles.len() - i,
    {
        assert(ds.take(i + 1).drop_last() == ds.take(i as int));
        let st = style_string(&styles[i]);
        push_str(&mut xml, st.as_str());
        i += 1;
    }
    assert(ds.take(i as int) == ds);
    push_str(&mut xml, STYLES_TAIL);
    assert(xml@ =~= STYLES_HEAD@ + styles_xml(default_styles_spec()) + STYLES_TAIL@);
    xml
}

} // verus!
