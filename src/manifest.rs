use vstd::prelude::*;

use crate::events::{attrs_view, events_view, Attribute, Event, EventView};
use crate::model::{
    empty_alias, empty_axis, empty_entry, empty_family, AliasView, AxisView, EntryView,
    FamilyView, FontAlias, FontAxis, FontEntry, FontFamily,
};
use crate::text::{
    contains_char, float_text_ok, has_char, i32_text_value, is_float_text, lemma_split_nonempty,
    parse_i32, split_on, split_text, text_eq, trim_text, trimmed_of,
};

verus! {

/// Why a manifest could not be loaded.
#[derive(Debug, PartialEq, Eq)]
pub enum LoadError {
    /// An attribute that must hold a number (an integer, or for an axis's
    /// style value a decimal number) does not.
    InvalidNumber,
}

pub type AttrsView = Seq<(Seq<char>, Seq<char>)>;

// ---- attributes -----------------------------------------------------------

pub open spec fn alias_attr(a: AliasView, key: Seq<char>, value: Seq<char>) -> Option<AliasView> {
    if key == "name"@ {
        Some(AliasView { name: value, ..a })
    } else if key == "to"@ {
        Some(AliasView { to: value, ..a })
    } else if key == "weight"@ {
        match i32_text_value(value) {
            Some(w) => Some(AliasView { weight: Some(w), ..a }),
            None => None,
        }
    } else {
        Some(a)
    }
}

/// The alias that the attributes of an `<alias>` tag describe, applied in
/// order; `None` where a weight is not an integer.
pub open spec fn alias_of(attrs: AttrsView) -> Option<AliasView>
    decreases attrs.len(),
{
    if attrs.len() == 0 {
        Some(empty_alias())
    } else {
        match alias_of(attrs.drop_last()) {
            Some(a) => alias_attr(a, attrs.last().0, attrs.last().1),
            None => None,
        }
    }
}

pub open spec fn family_attr(f: FamilyView, key: Seq<char>, value: Seq<char>) -> FamilyView {
    if key == "lang"@ {
        FamilyView { lang: Some(value), ..f }
    } else if key == "name"@ {
        FamilyView { name: Some(value), ..f }
    } else if key == "variant"@ {
        FamilyView { variant: Some(value), ..f }
    } else {
        f
    }
}

/// The (still empty) family that the attributes of a `<family>` tag describe.
pub open spec fn family_of(attrs: AttrsView) -> FamilyView
    decreases attrs.len(),
{
    if attrs.len() == 0 {
        empty_family()
    } else {
        family_attr(family_of(attrs.drop_last()), attrs.last().0, attrs.last().1)
    }
}

pub open spec fn font_attr(f: EntryView, key: Seq<char>, value: Seq<char>) -> Option<EntryView> {
    if key == "weight"@ {
        match i32_text_value(value) {
            Some(w) => Some(EntryView { weight: Some(w), ..f }),
            None => None,
        }
    } else if key == "style"@ {
        if value == "normal"@ {
            Some(EntryView { italic: false, ..f })
        } else if value == "italic"@ {
            Some(EntryView { italic: true, ..f })
        } else {
            Some(f)
        }
    } else if key == "fallbackFor"@ {
        Some(EntryView { fallback_for: Some(value), ..f })
    } else if key == "index"@ {
        match i32_text_value(value) {
            Some(x) => Some(EntryView { index: x, ..f }),
            None => None,
        }
    } else {
        Some(f)
    }
}

/// The (still pathless) font that the attributes of a `<font>` tag describe;
/// `None` where a weight or an index is not an integer.
pub open spec fn font_of(attrs: AttrsView) -> Option<EntryView>
    decreases attrs.len(),
{
    if attrs.len() == 0 {
        Some(empty_entry())
    } else {
        match font_of(attrs.drop_last()) {
            Some(f) => font_attr(f, attrs.last().0, attrs.last().1),
            None => None,
        }
    }
}

pub open spec fn axis_attr(x: AxisView, key: Seq<char>, value: Seq<char>) -> Option<AxisView> {
    if key == "tag"@ {
        Some(AxisView { tag: value, ..x })
    } else if key == "stylevalue"@ {
        if is_float_text(value) {
            Some(AxisView { stylevalue: value, ..x })
        } else {
            None
        }
    } else {
        Some(x)
    }
}

/// The axis that the attributes of an `<axis>` tag describe; `None` where the
/// style value is not a number.
pub open spec fn axis_of(attrs: AttrsView) -> Option<AxisView>
    decreases attrs.len(),
{
    if attrs.len() == 0 {
        Some(empty_axis())
    } else {
        match axis_of(attrs.drop_last()) {
            Some(x) => axis_attr(x, attrs.last().0, attrs.last().1),
            None => None,
        }
    }
}

proof fn lemma_attrs_prefix(attrs: Seq<Attribute>, i: int)
    requires
        0 <= i < attrs.len(),
    ensures
        attrs_view(attrs.subrange(0, i + 1)).drop_last() == attrs_view(attrs.subrange(0, i)),
        attrs_view(attrs.subrange(0, i + 1)).last() == (attrs[i].name@, attrs[i].value@),
        attrs_view(attrs.subrange(0, i + 1)).len() == i + 1,
{
    assert(attrs_view(attrs.subrange(0, i + 1)).drop_last() =~= attrs_view(attrs.subrange(0, i)));
}

proof fn lemma_alias_failure_stays(attrs: AttrsView, k: int)
    requires
        0 <= k <= attrs.len(),
        alias_of(attrs.subrange(0, k)) is None,
    ensures
        alias_of(attrs) is None,
    decreases attrs.len() - k,
{
    if k == attrs.len() {
        assert(attrs.subrange(0, k) =~= attrs);
    } else {
        assert(attrs.subrange(0, k + 1).drop_last() =~= attrs.subrange(0, k));
        lemma_alias_failure_stays(attrs, k + 1);
    }
}

proof fn lemma_axis_failure_stays(attrs: AttrsView, k: int)
    requires
        0 <= k <= attrs.len(),
        axis_of(attrs.subrange(0, k)) is None,
    ensures
        axis_of(attrs) is None,
    decreases attrs.len() - k,
{
    if k == attrs.len() {
        assert(attrs.subrange(0, k) =~= attrs);
    } else {
        assert(attrs.subrange(0, k + 1).drop_last() =~= attrs.subrange(0, k));
        lemma_axis_failure_stays(attrs, k + 1);
    }
}

proof fn lemma_font_failure_stays(attrs: AttrsView, k: int)
    requires
        0 <= k <= attrs.len(),
        font_of(attrs.subrange(0, k)) is None,
    ensures
        font_of(attrs) is None,
    decreases attrs.len() - k,
{
    if k == attrs.len() {
        assert(attrs.subrange(0, k) =~= attrs);
    } else {
        assert(attrs.subrange(0, k + 1).drop_last() =~= attrs.subrange(0, k));
        lemma_font_failure_stays(attrs, k + 1);
    }
}

/// Reads the attributes of an `<alias>` tag.
fn parse_alias(attributes: &Vec<Attribute>) -> (r: Result<FontAlias, LoadError>)
    ensures
        match r {
            Ok(a) => alias_of(attrs_view(attributes@)) == Some(a@),
            Err(_) => alias_of(attrs_view(attributes@)) is None,
        },
{
    let mut font_alias = FontAlias::new();
    let mut i: usize = 0;
    assert(attrs_view(attributes@.subrange(0, 0)) =~= Seq::empty());
    while i < attributes.len()
        invariant
            i <= attributes@.len(),
            alias_of(attrs_view(attributes@.subrange(0, i as int))) == Some(font_alias@),
        decreases attributes@.len() - i,
    {
        let attr = &attributes[i];
        proof {
            lemma_attrs_prefix(attributes@, i as int);
        }
        if text_eq(attr.name.as_str(), "name") {
            font_alias.name = attr.value.clone();
        } else if text_eq(attr.name.as_str(), "to") {
            font_alias.to = attr.value.clone();
        } else if text_eq(attr.name.as_str(), "weight") {
            match parse_i32(attr.value.as_str()) {
                Some(w) => {
                    font_alias.weight = Some(w);
                },
                None => {
                    proof {
                        lemma_alias_failure_stays(attrs_view(attributes@), i + 1);
                        assert(attrs_view(attributes@).subrange(0, i + 1) =~= attrs_view(
                            attributes@.subrange(0, i + 1),
                        ));
                    }
                    return Err(LoadError::InvalidNumber);
                },
            }
        }
        i = i + 1;
    }
    assert(attributes@.subrange(0, i as int) =~= attributes@);
    Ok(font_alias)
}

/// Reads the attributes of a `<family>` tag.
fn parse_family(attributes: &Vec<Attribute>) -> (r: FontFamily)
    ensures
        r@ == family_of(attrs_view(attributes@)),
{
    let mut font_family = FontFamily::new();
    let mut i: usize = 0;
    assert(attrs_view(attributes@.subrange(0, 0)) =~= Seq::empty());
    while i < attributes.len()
        invariant
            i <= attributes@.len(),
            family_of(attrs_view(attributes@.subrange(0, i as int))) == font_family@,
        decreases attributes@.len() - i,
    {
        let attr = &attributes[i];
        proof {
            lemma_attrs_prefix(attributes@, i as int);
        }
        if text_eq(attr.name.as_str(), "lang") {
            font_family.lang = Some(attr.value.clone());
        } else if text_eq(attr.name.as_str(), "name") {
            font_family.name = Some(attr.value.clone());
        } else if text_eq(attr.name.as_str(), "variant") {
            font_family.variant = Some(attr.value.clone());
        }
        i = i + 1;
    }
    assert(attributes@.subrange(0, i as int) =~= attributes@);
    font_family
}

/// Reads the attributes of a `<font>` tag.
fn parse_font(attributes: &Vec<Attribute>) -> (r: Result<FontEntry, LoadError>)
    ensures
        match r {
            Ok(f) => font_of(attrs_view(attributes@)) == Some(f@),
            Err(_) => font_of(attrs_view(attributes@)) is None,
        },
{
    let mut font = FontEntry::new();
    let mut i: usize = 0;
    assert(attrs_view(attributes@.subrange(0, 0)) =~= Seq::empty());
    while i < attributes.len()
        invariant
            i <= attributes@.len(),
            font_of(attrs_view(attributes@.subrange(0, i as int))) == Some(font@),
        decreases attributes@.len() - i,
    {
        let attr = &attributes[i];
        proof {
            lemma_attrs_prefix(attributes@, i as int);
        }
        let key = attr.name.as_str();
        let value = attr.value.as_str();
        let mut bad = false;
        if text_eq(key, "weight") {
            match parse_i32(value) {
                Some(w) => {
                    font.weight = Some(w);
                },
                None => {
                    bad = true;
                },
            }
        } else if text_eq(key, "style") {
            if text_eq(value, "normal") {
                font.italic = false;
            } else if text_eq(value, "italic") {
                font.italic = true;
            }
        } else if text_eq(key, "fallbackFor") {
            font.fallback_for = Some(attr.value.clone());
        } else if text_eq(key, "index") {
            match parse_i32(value) {
                Some(x) => {
                    font.index = x;
                },
                None => {
                    bad = true;
                },
            }
        }
        if bad {
            proof {
                lemma_font_failure_stays(attrs_view(attributes@), i + 1);
                assert(attrs_view(attributes@).subrange(0, i + 1) =~= attrs_view(
                    attributes@.subrange(0, i + 1),
                ));
            }
            return Err(LoadError::InvalidNumber);
        }
        i = i + 1;
    }
    assert(attributes@.subrange(0, i as int) =~= attributes@);
    Ok(font)
}

/// Reads the attributes of an `<axis>` tag.
fn parse_axis(attributes: &Vec<Attribute>) -> (r: Result<FontAxis, LoadError>)
    ensures
        match r {
            Ok(x) => axis_of(attrs_view(attributes@)) == Some(x@),
            Err(_) => axis_of(attrs_view(attributes@)) is None,
        },
{
    let mut axis = FontAxis::new();
    let mut i: usize = 0;
    assert(attrs_view(attributes@.subrange(0, 0)) =~= Seq::empty());
    while i < attributes.len()
        invariant
            i <= attributes@.len(),
            axis_of(attrs_view(attributes@.subrange(0, i as int))) == Some(axis@),
        decreases attributes@.len() - i,
    {
        let attr = &attributes[i];
        proof {
            lemma_attrs_prefix(attributes@, i as int);
        }
        if text_eq(attr.name.as_str(), "tag") {
            axis.tag = attr.value.clone();
        } else if text_eq(attr.name.as_str(), "stylevalue") {
            if !float_text_ok(attr.value.as_str()) {
                proof {
                    lemma_axis_failure_stays(attrs_view(attributes@), i + 1);
                    assert(attrs_view(attributes@).subrange(0, i + 1) =~= attrs_view(
                        attributes@.subrange(0, i + 1),
                    ));
                }
                return Err(LoadError::InvalidNumber);
            }
            axis.stylevalue = attr.value.clone();
        }
        i = i + 1;
    }
    assert(attributes@.subrange(0, i as int) =~= attributes@);
    Ok(axis)
}

// ---- the loading state machine --------------------------------------------

/// The directory that a font's file name is relative to.
pub open spec fn font_dir() -> Seq<char> {
    "/system/fonts/"@
}

/// The language tags of a family's `lang` attribute: split at commas if it has
/// any, else at spaces if it has any, else the attribute as one tag.
pub open spec fn lang_tags(lang: Seq<char>) -> Seq<Seq<char>> {
    if has_char(lang, ',') {
        split_on(lang, ',')
    } else if has_char(lang, ' ') {
        split_on(lang, ' ')
    } else {
        seq![lang]
    }
}

pub open spec fn with_lang(f: FamilyView, lang: Seq<char>) -> FamilyView {
    FamilyView { lang: Some(lang), ..f }
}

/// What a closed family adds to the model: one copy per language tag, or the
/// family itself where it has no language.
pub open spec fn expand_family(f: FamilyView) -> Seq<FamilyView> {
    match f.lang {
        Some(l) => lang_tags(l).map_values(|t: Seq<char>| with_lang(f, t)),
        None => seq![f],
    }
}

/// The state of loading: the names of the open elements, the family and the
/// font being read, and what has been committed so far.
pub struct LoaderView {
    pub open: Seq<Seq<char>>,
    pub family: FamilyView,
    pub font: EntryView,
    pub families: Seq<FamilyView>,
    pub aliases: Seq<AliasView>,
}

pub open spec fn initial_state() -> LoaderView {
    LoaderView {
        open: Seq::empty(),
        family: empty_family(),
        font: empty_entry(),
        families: Seq::empty(),
        aliases: Seq::empty(),
    }
}

/// Whether the innermost open element is named `name`.
pub open spec fn innermost_is(open: Seq<Seq<char>>, name: Seq<char>) -> bool {
    open.len() > 0 && open.last() == name
}

pub open spec fn on_start(st: LoaderView, name: Seq<char>, attrs: AttrsView) -> Option<LoaderView> {
    let st = LoaderView { open: st.open.push(name), ..st };
    if name == "alias"@ {
        match alias_of(attrs) {
            Some(a) => Some(LoaderView { aliases: st.aliases.push(a), ..st }),
            None => None,
        }
    } else if name == "family"@ {
        Some(LoaderView { family: family_of(attrs), ..st })
    } else if name == "font"@ {
        match font_of(attrs) {
            Some(f) => Some(LoaderView { font: f, ..st }),
            None => None,
        }
    } else if name == "axis"@ {
        match axis_of(attrs) {
            Some(x) => Some(LoaderView { font: EntryView { axes: st.font.axes.push(x), ..st.font }, ..st }),
            None => None,
        }
    } else {
        Some(st)
    }
}

pub open spec fn on_end(st: LoaderView, name: Seq<char>) -> LoaderView {
    let open = if st.open.len() > 0 {
        st.open.drop_last()
    } else {
        st.open
    };
    let st = LoaderView { open, ..st };
    if name == "font"@ {
        if st.font.path is Some && innermost_is(open, "family"@) {
            LoaderView { family: FamilyView { fonts: st.family.fonts.push(st.font), ..st.family }, ..st }
        } else {
            st
        }
    } else if name == "family"@ {
        LoaderView { families: st.families + expand_family(st.family), ..st }
    } else {
        st
    }
}

pub open spec fn on_text(st: LoaderView, content: Seq<char>) -> LoaderView {
    if innermost_is(st.open, "font"@) {
        LoaderView {
            font: EntryView { path: Some(font_dir() + trimmed_of(content)), ..st.font },
            ..st
        }
    } else {
        st
    }
}

/// One event's effect on the state; `None` where it cannot be loaded.
pub open spec fn step(st: LoaderView, e: EventView) -> Option<LoaderView> {
    match e {
        EventView::Start { name, attributes } => on_start(st, name, attributes),
        EventView::End { name } => Some(on_end(st, name)),
        EventView::Text { content } => Some(on_text(st, content)),
        EventView::Other => Some(st),
    }
}

/// The state after a sequence of events, if none of them failed.
pub open spec fn run(events: Seq<EventView>) -> Option<LoaderView>
    decreases events.len(),
{
    if events.len() == 0 {
        Some(initial_state())
    } else {
        match run(events.drop_last()) {
            Some(st) => step(st, events.last()),
            None => None,
        }
    }
}

/// The families and aliases that a sequence of events loads.
pub open spec fn load_spec(events: Seq<EventView>) -> Option<(Seq<FamilyView>, Seq<AliasView>)> {
    match run(events) {
        Some(st) => Some((st.families, st.aliases)),
        None => None,
    }
}

pub open spec fn families_view(fams: Seq<FontFamily>) -> Seq<FamilyView> {
    fams.map_values(|f: FontFamily| f@)
}

pub open spec fn aliases_view(aliases: Seq<FontAlias>) -> Seq<AliasView> {
    aliases.map_values(|a: FontAlias| a@)
}

/// Appends one copy of `family` per tag, each with that tag as its language.
fn push_with_langs(family: &FontFamily, tags: &Vec<String>, out: &mut Vec<FontFamily>)
    ensures
        families_view(final(out)@) == families_view(old(out)@) + tags@.map_values(
            |t: String| t@,
        ).map_values(|t: Seq<char>| with_lang(family@, t)),
{
    let ghost start = families_view(out@);
    let ghost want = tags@.map_values(|t: String| t@).map_values(
        |t: Seq<char>| with_lang(family@, t),
    );
    let mut i: usize = 0;
    while i < tags.len()
        invariant
            i <= tags@.len(),
            want == tags@.map_values(|t: String| t@).map_values(
                |t: Seq<char>| with_lang(family@, t),
            ),
            families_view(out@) == start + want.subrange(0, i as int),
        decreases tags@.len() - i,
    {
        let mut f = family.duplicate();
        f.lang = Some(tags[i].clone());
        let ghost before = out@;
        out.push(f);
        proof {
            assert(out@ == before.push(f));
            assert(families_view(out@) =~= families_view(before).push(f@));
            assert(want.subrange(0, i + 1) =~= want.subrange(0, i as int).push(want[i as int]));
            assert(f@ =~= want[i as int]);
        }
        i = i + 1;
    }
    assert(want.subrange(0, i as int) =~= want);
}

/// Appends to `out` what the closed `family` adds to the model.
fn push_expanded(family: &FontFamily, out: &mut Vec<FontFamily>)
    ensures
        families_view(final(out)@) == families_view(old(out)@) + expand_family(family@),
{
    match &family.lang {
        Some(l) => {
            if contains_char(l.as_str(), ',') {
                let tags = split_text(l.as_str(), ',');
                push_with_langs(family, &tags, out);
            } else if contains_char(l.as_str(), ' ') {
                let tags = split_text(l.as_str(), ' ');
                push_with_langs(family, &tags, out);
            } else {
                let ghost before = out@;
                out.push(family.duplicate());
                proof {
                    let fv = family@;
                    assert(with_lang(fv, l@) =~= fv);
                    assert(expand_family(fv) =~= seq![fv]);
                    assert(families_view(out@) =~= families_view(before).push(fv));
                }
            }
        },
        None => {
            let ghost before = out@;
            out.push(family.duplicate());
            assert(families_view(out@) =~= families_view(before).push(family@));
            assert(families_view(out@) =~= families_view(before) + expand_family(family@));
        },
    }
}

/// Every font of `fonts` has a path.
pub open spec fn fonts_have_paths(fonts: Seq<EntryView>) -> bool {
    forall|j: int| 0 <= j < fonts.len() ==> (#[trigger] fonts[j]).path is Some
}

/// Every font of every family has a path.
pub open spec fn families_have_paths(fams: Seq<FamilyView>) -> bool {
    forall|i: int| 0 <= i < fams.len() ==> fonts_have_paths(#[trigger] fams[i].fonts)
}

pub open spec fn state_ok(st: LoaderView) -> bool {
    fonts_have_paths(st.family.fonts) && families_have_paths(st.families)
}

/// A family read from a tag has no fonts yet.
pub proof fn lemma_family_of_fontless(attrs: AttrsView)
    ensures
        family_of(attrs).fonts == Seq::<EntryView>::empty(),
    decreases attrs.len(),
{
    if attrs.len() > 0 {
        lemma_family_of_fontless(attrs.drop_last());
    }
}

proof fn lemma_step_keeps_paths(st: LoaderView, e: EventView)
    requires
        state_ok(st),
        step(st, e) is Some,
    ensures
        state_ok(step(st, e)->0),
{
    match e {
        EventView::Start { name, attributes } => {
            lemma_family_of_fontless(attributes);
        },
        EventView::End { name } => {
            let fv = st.family;
            let added = expand_family(fv);
            assert forall|k: int| 0 <= k < added.len() implies added[k].fonts == fv.fonts by {
            }
            let nf = st.families + added;
            assert forall|i: int| 0 <= i < nf.len() implies fonts_have_paths(#[trigger] nf[i].fonts) by {
                if i >= st.families.len() {
                    assert(nf[i] == added[i - st.families.len()]);
                }
            }
        },
        _ => {},
    }
}

/// The loading state, held as plain values.
struct Loader {
    open: Vec<String>,
    family: FontFamily,
    font: FontEntry,
    families: Vec<FontFamily>,
    aliases: Vec<FontAlias>,
}

impl View for Loader {
    type V = LoaderView;

    closed spec fn view(&self) -> LoaderView {
        LoaderView {
            open: self.open@.map_values(|s: String| s@),
            family: self.family@,
            font: self.font@,
            families: families_view(self.families@),
            aliases: aliases_view(self.aliases@),
        }
    }
}

/// Whether the innermost open element is named `name`.
fn innermost_named(open: &Vec<String>, name: &str) -> (r: bool)
    ensures
        r == innermost_is(open@.map_values(|s: String| s@), name@),
{
    if open.len() == 0 {
        false
    } else {
        text_eq(open[open.len() - 1].as_str(), name)
    }
}

impl Loader {
    fn new() -> (r: Loader)
        ensures
            r@ == initial_state(),
    {
        let r = Loader {
            open: Vec::new(),
            family: FontFamily::new(),
            font: FontEntry::new(),
            families: Vec::new(),
            aliases: Vec::new(),
        };
        assert(r@.open =~= Seq::<Seq<char>>::empty());
        assert(r@.families =~= Seq::<FamilyView>::empty());
        assert(r@.aliases =~= Seq::<AliasView>::empty());
        r
    }

    fn start(&mut self, name: &String, attributes: &Vec<Attribute>) -> (r: Result<(), LoadError>)
        ensures
            match r {
                Ok(()) => on_start(old(self)@, name@, attrs_view(attributes@)) == Some(final(self)@),
                Err(_) => on_start(old(self)@, name@, attrs_view(attributes@)) is None,
            },
    {
        let ghost open0 = self.open@;
        self.open.push(name.clone());
        assert(self.open@.map_values(|s: String| s@) =~= open0.map_values(|s: String| s@).push(name@));
        if text_eq(name.as_str(), "alias") {
            let a = parse_alias(attributes)?;
            let ghost al = self.aliases@;
            self.aliases.push(a);
            assert(aliases_view(self.aliases@) =~= aliases_view(al).push(a@));
        } else if text_eq(name.as_str(), "family") {
            self.family = parse_family(attributes);
        } else if text_eq(name.as_str(), "font") {
            self.font = parse_font(attributes)?;
        } else if text_eq(name.as_str(), "axis") {
            let x = parse_axis(attributes)?;
            let ghost ax = self.font.axis@;
            self.font.axis.push(x);
            assert(self.font.axis@.map_values(|a: FontAxis| a@) =~= ax.map_values(|a: FontAxis| a@).push(x@));
        }
        Ok(())
    }

    fn end(&mut self, name: &String)
        ensures
            final(self)@ == on_end(old(self)@, name@),
    {
        let ghost open0 = self.open@;
        let _ = self.open.pop();
        assert(self.open@.map_values(|s: String| s@) =~= (if open0.len() > 0 {
            open0.map_values(|s: String| s@).drop_last()
        } else {
            open0.map_values(|s: String| s@)
        }));
        if text_eq(name.as_str(), "font") {
            if self.font.path.is_some() && innermost_named(&self.open, "family") {
                let f = self.font.duplicate();
                let ghost fs = self.family.fonts@;
                self.family.fonts.push(f);
                assert(self.family.fonts@.map_values(|x: FontEntry| x@) =~= fs.map_values(|x: FontEntry| x@).push(f@));
            }
        } else if text_eq(name.as_str(), "family") {
            push_expanded(&self.family, &mut self.families);
        }
    }

    fn text(&mut self, content: &String)
        ensures
            final(self)@ == on_text(old(self)@, content@),
    {
        if innermost_named(&self.open, "font") {
            let t = trim_text(content.as_str());
            let mut path = String::from_str("/system/fonts/");
            path.append(t);
            self.font.path = Some(path);
        }
    }

    fn handle(&mut self, e: &Event) -> (r: Result<(), LoadError>)
        ensures
            match r {
                Ok(()) => step(old(self)@, e@) == Some(final(self)@),
                Err(_) => step(old(self)@, e@) is None,
            },
    {
        match e {
            Event::Start { name, attributes } => self.start(name, attributes),
            Event::End { name } => {
                self.end(name);
                Ok(())
            },
            Event::Text { content } => {
                self.text(content);
                Ok(())
            },
            Event::Other => Ok(()),
        }
    }
}

proof fn lemma_run_failure_stays(events: Seq<EventView>, k: int)
    requires
        0 <= k <= events.len(),
        run(events.subrange(0, k)) is None,
    ensures
        run(events) is None,
    decreases events.len() - k,
{
    if k == events.len() {
        assert(events.subrange(0, k) =~= events);
    } else {
        assert(events.subrange(0, k + 1).drop_last() =~= events.subrange(0, k));
        lemma_run_failure_stays(events, k + 1);
    }
}

/// Loads the families and aliases that a sequence of events describes, in
/// the order of the events. Fails only where an integer attribute is not an
/// integer.
pub fn parse_events(events: &Vec<Event>) -> (r: Result<(Vec<FontFamily>, Vec<FontAlias>), LoadError>)
    ensures
        match r {
            Ok((fams, aliases)) => load_spec(events_view(events@)) == Some(
                (families_view(fams@), aliases_view(aliases@)),
            ) && families_have_paths(families_view(fams@)),
            Err(_) => load_spec(events_view(events@)) is None,
        },
{
    let mut loader = Loader::new();
    let ghost evs = events_view(events@);
    let mut i: usize = 0;
    assert(evs.subrange(0, 0) =~= Seq::<EventView>::empty());
    while i < events.len()
        invariant
            i <= events@.len(),
            evs == events_view(events@),
            run(evs.subrange(0, i as int)) == Some(loader@),
            state_ok(loader@),
        decreases events@.len() - i,
    {
        let ghost st = loader@;
        let res = loader.handle(&events[i]);
        proof {
            assert(evs.subrange(0, i + 1).drop_last() =~= evs.subrange(0, i as int));
            assert(evs.subrange(0, i + 1).last() == events@[i as int]@);
        }
        match res {
            Ok(()) => {
                proof {
                    lemma_step_keeps_paths(st, events@[i as int]@);
                }
            },
            Err(e) => {
                proof {
                    lemma_run_failure_stays(evs, i + 1);
                }
                return Err(e);
            },
        }
        i = i + 1;
    }
    assert(evs.subrange(0, i as int) =~= evs);
    Ok((loader.families, loader.aliases))
}

/// Closing a family whose `lang` attribute is `l` adds exactly one family per
/// language tag of `l`, in order; each is the closed family with that tag as
/// its language and nothing else changed.
pub proof fn lemma_family_per_lang_tag(st: LoaderView, l: Seq<char>)
    requires
        st.family.lang == Some(l),
    ensures
        ({
            let after = on_end(st, "family"@).families;
            let tags = lang_tags(l);
            &&& after.len() == st.families.len() + tags.len()
            &&& after.subrange(0, st.families.len() as int) == st.families
            &&& forall|k: int|
                0 <= k < tags.len() ==> {
                    let g = #[trigger] after[st.families.len() + k];
                    &&& g.lang == Some(tags[k])
                    &&& g.name == st.family.name
                    &&& g.variant == st.family.variant
                    &&& g.fonts == st.family.fonts
                }
        }),
{
    reveal_strlit("font");
    reveal_strlit("family");
    assert("font"@.len() != "family"@.len());
    let after = on_end(st, "family"@).families;
    assert(after == st.families + expand_family(st.family));
    assert(after.subrange(0, st.families.len() as int) =~= st.families);
}

/// Loading only ever appends families: the families loaded from a prefix of
/// the events stay, in order, at the front.
pub proof fn lemma_families_only_grow(a: Seq<EventView>, b: Seq<EventView>)
    requires
        run(a + b) is Some,
    ensures
        run(a) is Some,
        run(a)->0.families.len() <= run(a + b)->0.families.len(),
        run(a + b)->0.families.subrange(0, run(a)->0.families.len() as int) == run(a)->0.families,
    decreases b.len(),
{
    if b.len() == 0 {
        assert(a + b =~= a);
        assert(run(a)->0.families.subrange(0, run(a)->0.families.len() as int) =~= run(
            a,
        )->0.families);
    } else {
        assert((a + b).drop_last() =~= a + b.drop_last());
        assert((a + b).last() == b.last());
        lemma_families_only_grow(a, b.drop_last());
        let mid = run(a + b.drop_last())->0;
        let fin = run(a + b)->0;
        assert(fin.families.subrange(0, mid.families.len() as int) =~= mid.families);
        assert(fin.families.subrange(0, run(a)->0.families.len() as int) =~= mid.families.subrange(
            0,
            run(a)->0.families.len() as int,
        ));
    }
}

/// A closed family always adds at least one family.
pub proof fn lemma_expand_nonempty(f: FamilyView)
    ensures
        expand_family(f).len() >= 1,
        forall|k: int| 0 <= k < expand_family(f).len() ==> (#[trigger] expand_family(f)[k]).fonts
            == f.fonts,
{
    if let Some(l) = f.lang {
        lemma_split_nonempty(l, ',');
        lemma_split_nonempty(l, ' ');
    }
}

/// A `<font>` element that gets no text before it closes is not kept.
pub proof fn lemma_font_without_text_dropped(st: LoaderView, attrs: AttrsView)
    requires
        on_start(st, "font"@, attrs) is Some,
    ensures
        ({
            let after = on_end(on_start(st, "font"@, attrs)->0, "font"@);
            &&& after.family == st.family
            &&& after.families == st.families
            &&& after.aliases == st.aliases
            &&& after.open == st.open
        }),
{
    reveal_strlit("font");
    reveal_strlit("alias");
    reveal_strlit("family");
    assert("font"@.len() != "family"@.len());
    assert("font"@.len() != "alias"@.len());
    lemma_font_of_pathless(attrs);
}

/// A `<font>` element that does not close directly inside a `<family>` is not
/// kept.
pub proof fn lemma_font_outside_family_dropped(st: LoaderView)
    requires
        !innermost_is(
            if st.open.len() > 0 {
                st.open.drop_last()
            } else {
                st.open
            },
            "family"@,
        ),
    ensures
        on_end(st, "font"@).family == st.family,
        on_end(st, "font"@).families == st.families,
{
}

proof fn lemma_font_of_pathless(attrs: AttrsView)
    ensures
        font_of(attrs) matches Some(f) ==> f.path is None,
    decreases attrs.len(),
{
    if attrs.len() > 0 {
        lemma_font_of_pathless(attrs.drop_last());
    }
}

/// Over a whole manifest: where `before` ends inside a family whose `lang`
/// attribute is `l`, the families that its end tag adds stand, one per
/// language tag of `l` and in order, in the loaded model, whatever events
/// follow; each is that family with the tag as its language and nothing else
/// changed.
pub proof fn lemma_lang_family_loaded(before: Seq<EventView>, after: Seq<EventView>, l: Seq<char>)
    requires
        run(before + seq![EventView::End { name: "family"@ }] + after) is Some,
        run(before) matches Some(st) && st.family.lang == Some(l),
    ensures
        ({
            let st = run(before)->0;
            let fams = run(before + seq![EventView::End { name: "family"@ }] + after)->0.families;
            let tags = lang_tags(l);
            let k = st.families.len() as int;
            &&& fams.len() >= k + tags.len()
            &&& forall|t: int|
                0 <= t < tags.len() ==> {
                    let g = #[trigger] fams[k + t];
                    &&& g.lang == Some(tags[t])
                    &&& g.name == st.family.name
                    &&& g.variant == st.family.variant
                    &&& g.fonts == st.family.fonts
                }
        }),
{
    let close = seq![EventView::End { name: "family"@ }];
    let mid = before + close;
    lemma_families_only_grow(mid, after);
    assert(mid.drop_last() =~= before);
    assert(mid.last() == close[0]);
    let st = run(before)->0;
    lemma_family_per_lang_tag(st, l);
    let closed = run(mid)->0.families;
    assert(closed == on_end(st, "family"@).families);
    let fams = run(mid + after)->0.families;
    let k = st.families.len() as int;
    let tags = lang_tags(l);
    assert forall|t: int| 0 <= t < tags.len() implies #[trigger] fams[k + t] == closed[k + t] by {
        assert(fams.subrange(0, closed.len() as int)[k + t] == fams[k + t]);
    }
}

} // verus!
