use vstd::prelude::*;

use crate::text::text_eq;

verus! {

/// An optional text as a sequence of characters.
pub open spec fn text_opt(o: Option<String>) -> Option<Seq<char>> {
    match o {
        Some(s) => Some(s@),
        None => None,
    }
}

/// Copies an optional text.
fn copy_text_opt(o: &Option<String>) -> (r: Option<String>)
    ensures
        text_opt(r) == text_opt(*o),
{
    match o {
        Some(s) => Some(s.clone()),
        None => None,
    }
}

/// An alternate family name that stands for a canonical family.
#[derive(Clone)]
pub struct FontAlias {
    pub name: String,
    pub to: String,
    /// Weight hint; parsed, not used for selection.
    pub weight: Option<i32>,
}

pub struct AliasView {
    pub name: Seq<char>,
    pub to: Seq<char>,
    pub weight: Option<i32>,
}

impl View for FontAlias {
    type V = AliasView;

    open spec fn view(&self) -> AliasView {
        AliasView { name: self.name@, to: self.to@, weight: self.weight }
    }
}

pub open spec fn empty_alias() -> AliasView {
    AliasView { name: Seq::empty(), to: Seq::empty(), weight: None }
}

impl FontAlias {
    /// An alias with empty names and no weight.
    pub fn new() -> (r: FontAlias)
        ensures
            r@ == empty_alias(),
    {
        FontAlias { name: String::new(), to: String::new(), weight: None }
    }
}

/// A variation axis of a font: its four-letter tag and its style value, kept
/// as the text of a decimal number. Axes are descriptive and never take part
/// in matching.
#[derive(Clone)]
pub struct FontAxis {
    pub tag: String,
    pub stylevalue: String,
}

pub struct AxisView {
    pub tag: Seq<char>,
    pub stylevalue: Seq<char>,
}

impl View for FontAxis {
    type V = AxisView;

    open spec fn view(&self) -> AxisView {
        AxisView { tag: self.tag@, stylevalue: self.stylevalue@ }
    }
}

pub open spec fn empty_axis() -> AxisView {
    AxisView { tag: Seq::empty(), stylevalue: Seq::empty() }
}

impl FontAxis {
    /// An axis with an empty tag and an empty value.
    pub fn new() -> (r: FontAxis)
        ensures
            r@ == empty_axis(),
    {
        FontAxis { tag: String::new(), stylevalue: String::new() }
    }

    /// A copy of this axis.
    pub fn duplicate(&self) -> (r: FontAxis)
        ensures
            r@ == self@,
    {
        FontAxis { tag: self.tag.clone(), stylevalue: self.stylevalue.clone() }
    }
}

/// One font file (or one face of it) within a family.
#[derive(Clone)]
pub struct FontEntry {
    pub path: Option<String>,
    pub weight: Option<i32>,
    pub italic: bool,
    pub fallback_for: Option<String>,
    pub index: i32,
    pub axis: Vec<FontAxis>,
}

pub struct EntryView {
    pub path: Option<Seq<char>>,
    pub weight: Option<i32>,
    pub italic: bool,
    pub fallback_for: Option<Seq<char>>,
    pub index: i32,
    pub axes: Seq<AxisView>,
}

impl View for FontEntry {
    type V = EntryView;

    open spec fn view(&self) -> EntryView {
        EntryView {
            path: text_opt(self.path),
            weight: self.weight,
            italic: self.italic,
            fallback_for: text_opt(self.fallback_for),
            index: self.index,
            axes: self.axis@.map_values(|a: FontAxis| a@),
        }
    }
}

pub open spec fn empty_entry() -> EntryView {
    EntryView {
        path: None,
        weight: None,
        italic: false,
        fallback_for: None,
        index: 0,
        axes: Seq::empty(),
    }
}

/// The default face of a family: upright, and of no weight or weight 400.
pub open spec fn regular(f: EntryView) -> bool {
    !f.italic && (f.weight is None || f.weight == Some(400i32))
}

impl FontEntry {
    /// An entry with no path, no weight, upright, face index 0 and no axes.
    pub fn new() -> (r: FontEntry)
        ensures
            r@ == empty_entry(),
    {
        let r = FontEntry {
            path: None,
            weight: None,
            italic: false,
            fallback_for: None,
            index: 0,
            axis: Vec::new(),
        };
        assert(r@.axes =~= Seq::<AxisView>::empty());
        r
    }

    /// Whether this is a regular face: not italic, and weight unset or 400.
    pub fn is_regular(&self) -> (r: bool)
        ensures
            r == regular(self@),
    {
        if self.italic {
            return false;
        }
        match self.weight {
            Some(w) => w == 400,
            None => true,
        }
    }

    /// A copy of this entry.
    pub fn duplicate(&self) -> (r: FontEntry)
        ensures
            r@ == self@,
    {
        let mut axis: Vec<FontAxis> = Vec::new();
        let mut i: usize = 0;
        while i < self.axis.len()
            invariant
                i <= self.axis@.len(),
                axis@.len() == i,
                forall|j: int| 0 <= j < i ==> axis@[j]@ == self.axis@[j]@,
            decreases self.axis@.len() - i,
        {
            axis.push(self.axis[i].duplicate());
            i = i + 1;
        }
        assert(axis@.map_values(|x: FontAxis| x@) =~= self.axis@.map_values(|x: FontAxis| x@));
        FontEntry {
            path: copy_text_opt(&self.path),
            weight: self.weight,
            italic: self.italic,
            fallback_for: copy_text_opt(&self.fallback_for),
            index: self.index,
            axis,
        }
    }
}

/// A named family, or an anonymous one that serves as the fallback for a
/// language.
#[derive(Clone)]
pub struct FontFamily {
    pub name: Option<String>,
    pub lang: Option<String>,
    pub variant: Option<String>,
    pub fonts: Vec<FontEntry>,
}

pub struct FamilyView {
    pub name: Option<Seq<char>>,
    pub lang: Option<Seq<char>>,
    pub variant: Option<Seq<char>>,
    pub fonts: Seq<EntryView>,
}

impl View for FontFamily {
    type V = FamilyView;

    open spec fn view(&self) -> FamilyView {
        FamilyView {
            name: text_opt(self.name),
            lang: text_opt(self.lang),
            variant: text_opt(self.variant),
            fonts: self.fonts@.map_values(|f: FontEntry| f@),
        }
    }
}

pub open spec fn empty_family() -> FamilyView {
    FamilyView { name: None, lang: None, variant: None, fonts: Seq::empty() }
}

/// Two families are the same when both are anonymous with equal languages, or
/// both are named with equal names.
pub open spec fn same_family(a: FamilyView, b: FamilyView) -> bool {
    (a.lang == b.lang && a.name is None && b.name is None) || (a.name is Some && b.name is Some
        && a.name == b.name)
}

impl FontFamily {
    /// A family with no name, language or variant, and no fonts.
    pub fn new() -> (r: FontFamily)
        ensures
            r@ == empty_family(),
    {
        let fonts: Vec<FontEntry> = Vec::new();
        let r = FontFamily { name: None, lang: None, variant: None, fonts };
        assert(r@.fonts =~= Seq::<EntryView>::empty());
        r
    }

    /// A copy of this family.
    pub fn duplicate(&self) -> (r: FontFamily)
        ensures
            r@ == self@,
    {
        let mut fonts: Vec<FontEntry> = Vec::new();
        let mut i: usize = 0;
        while i < self.fonts.len()
            invariant
                i <= self.fonts@.len(),
                fonts@.len() == i,
                forall|j: int| 0 <= j < i ==> fonts@[j]@ == self.fonts@[j]@,
            decreases self.fonts@.len() - i,
        {
            fonts.push(self.fonts[i].duplicate());
            i = i + 1;
        }
        assert(fonts@.map_values(|x: FontEntry| x@) =~= self.fonts@.map_values(|x: FontEntry| x@));
        FontFamily {
            name: copy_text_opt(&self.name),
            lang: copy_text_opt(&self.lang),
            variant: copy_text_opt(&self.variant),
            fonts,
        }
    }
}

fn text_opt_eq(a: &Option<String>, b: &Option<String>) -> (r: bool)
    ensures
        r == (text_opt(*a) == text_opt(*b)),
{
    match (a, b) {
        (Some(x), Some(y)) => text_eq(x.as_str(), y.as_str()),
        (None, None) => true,
        _ => false,
    }
}

impl PartialEq for FontFamily {
    fn eq(&self, other: &FontFamily) -> (r: bool) {
        (text_opt_eq(&self.lang, &other.lang) && self.name.is_none() && other.name.is_none()) || (
        self.name.is_some() && other.name.is_some() && text_opt_eq(&self.name, &other.name))
    }
}

impl vstd::std_specs::cmp::PartialEqSpecImpl for FontFamily {
    open spec fn obeys_eq_spec() -> bool {
        true
    }

    open spec fn eq_spec(&self, other: &FontFamily) -> bool {
        same_family(self@, other@)
    }
}

} // verus!
