use vstd::prelude::*;

use crate::events::{events_view, xml_events, xml_events_of, Event, EventView};
use crate::manifest::{
    aliases_view, families_have_paths, families_view, family_of, font_dir, font_of,
    lemma_expand_nonempty,
    lemma_families_only_grow, lemma_family_of_fontless, load_spec, parse_events, run, step,
    expand_family, LoadError,
};
use crate::text::trimmed_of;
use crate::model::{regular, AliasView, EntryView, FamilyView, FontAlias, FontEntry, FontFamily};
use crate::text::text_eq;

verus! {

/// The loaded model: families and aliases in manifest order.
pub struct ConfigView {
    pub families: Seq<FamilyView>,
    pub aliases: Seq<AliasView>,
}

// ---- what the queries answer ----------------------------------------------

/// The name of the first named family, or the empty text if none is named.
pub open spec fn first_family_name(fams: Seq<FamilyView>) -> Seq<char>
    decreases fams.len(),
{
    if fams.len() == 0 {
        Seq::empty()
    } else {
        match fams[0].name {
            Some(n) => n,
            None => first_family_name(fams.drop_first()),
        }
    }
}

/// The target of the first alias named `name`, or `name` itself.
pub open spec fn resolve_name(aliases: Seq<AliasView>, name: Seq<char>) -> Seq<char>
    decreases aliases.len(),
{
    if aliases.len() == 0 {
        name
    } else if aliases[0].name == name {
        aliases[0].to
    } else {
        resolve_name(aliases.drop_first(), name)
    }
}

/// Whether a font of a language family serves `name`: its `fallbackFor` is
/// `name`, or it has none and `name` is `sans-serif`.
pub open spec fn serves(f: EntryView, name: Seq<char>) -> bool {
    match f.fallback_for {
        Some(fb) => fb == name,
        None => name == "sans-serif"@,
    }
}

/// The first font of `fonts` that serves `name`.
pub open spec fn first_serving(fonts: Seq<EntryView>, name: Seq<char>) -> Option<EntryView>
    decreases fonts.len(),
{
    if fonts.len() == 0 {
        None
    } else if serves(fonts[0], name) {
        Some(fonts[0])
    } else {
        first_serving(fonts.drop_first(), name)
    }
}

/// The first font serving `name` in the families whose language is `lang`,
/// families and fonts in manifest order.
pub open spec fn fallback_font(fams: Seq<FamilyView>, name: Seq<char>, lang: Seq<char>) -> Option<
    EntryView,
>
    decreases fams.len(),
{
    if fams.len() == 0 {
        None
    } else if fams[0].lang == Some(lang) && first_serving(fams[0].fonts, name) is Some {
        first_serving(fams[0].fonts, name)
    } else {
        fallback_font(fams.drop_first(), name, lang)
    }
}

/// Whether a family is scanned for the default font of `lang`: `lang` is not
/// empty and is the family's language, or `lang` is empty and the family has
/// no language. A family whose language is present but empty covers nothing.
pub open spec fn covers_lang(f: FamilyView, lang: Seq<char>) -> bool {
    match f.lang {
        Some(l) => lang.len() > 0 && l == lang,
        None => lang.len() == 0,
    }
}

/// The first regular font with a path.
pub open spec fn first_regular(fonts: Seq<EntryView>) -> Option<EntryView>
    decreases fonts.len(),
{
    if fonts.len() == 0 {
        None
    } else if regular(fonts[0]) && fonts[0].path is Some {
        Some(fonts[0])
    } else {
        first_regular(fonts.drop_first())
    }
}

/// The first regular font of the first family covering `lang` that has one.
pub open spec fn default_font(fams: Seq<FamilyView>, lang: Seq<char>) -> Option<EntryView>
    decreases fams.len(),
{
    if fams.len() == 0 {
        None
    } else if covers_lang(fams[0], lang) && first_regular(fams[0].fonts) is Some {
        first_regular(fams[0].fonts)
    } else {
        default_font(fams.drop_first(), lang)
    }
}

/// Which fonts of a family a listing takes.
pub enum Pick {
    /// Every font.
    Any,
    /// The regular fonts.
    Regular,
    /// The fonts that serve the given family name.
    Serving,
}

pub open spec fn picks(p: Pick, f: EntryView, name: Seq<char>) -> bool {
    match p {
        Pick::Any => true,
        Pick::Regular => regular(f),
        Pick::Serving => serves(f, name),
    }
}

/// The (path, face index) pairs of the picked fonts that have a path, in order.
pub open spec fn picked_pairs(fonts: Seq<EntryView>, p: Pick, name: Seq<char>) -> Seq<
    (Seq<char>, i32),
>
    decreases fonts.len(),
{
    if fonts.len() == 0 {
        Seq::empty()
    } else {
        let prev = picked_pairs(fonts.drop_last(), p, name);
        let f = fonts.last();
        match f.path {
            Some(path) => if picks(p, f, name) {
                prev.push((path, f.index))
            } else {
                prev
            },
            None => prev,
        }
    }
}

/// Every font path with its face index, families and fonts in manifest order.
pub open spec fn all_paths(fams: Seq<FamilyView>) -> Seq<(Seq<char>, i32)>
    decreases fams.len(),
{
    if fams.len() == 0 {
        Seq::empty()
    } else {
        all_paths(fams.drop_last()) + picked_pairs(fams.last().fonts, Pick::Any, Seq::empty())
    }
}

/// The names of the named families, in order.
pub open spec fn family_names(fams: Seq<FamilyView>) -> Seq<Seq<char>>
    decreases fams.len(),
{
    if fams.len() == 0 {
        Seq::empty()
    } else {
        match fams.last().name {
            Some(n) => family_names(fams.drop_last()).push(n),
            None => family_names(fams.drop_last()),
        }
    }
}

pub open spec fn alias_names(aliases: Seq<AliasView>) -> Seq<Seq<char>> {
    aliases.map_values(|a: AliasView| a.name)
}

/// What one family contributes to the fonts of family `name` (already
/// resolved): the regular fonts of a family of that name, or the fonts of a
/// language family that serve it.
pub open spec fn family_selection(f: FamilyView, name: Seq<char>) -> Seq<(Seq<char>, i32)> {
    match f.name {
        Some(n) => if n == name {
            picked_pairs(f.fonts, Pick::Regular, name)
        } else {
            Seq::empty()
        },
        None => picked_pairs(f.fonts, Pick::Serving, name),
    }
}

/// The fonts of family `name` (already resolved) over all families, in order.
pub open spec fn selection(fams: Seq<FamilyView>, name: Seq<char>) -> Seq<(Seq<char>, i32)>
    decreases fams.len(),
{
    if fams.len() == 0 {
        Seq::empty()
    } else {
        selection(fams.drop_last(), name) + family_selection(fams.last(), name)
    }
}

pub open spec fn pairs_view(v: Seq<(String, i32)>) -> Seq<(Seq<char>, i32)> {
    v.map_values(|p: (String, i32)| (p.0@, p.1))
}

pub open spec fn names_view(v: Seq<String>) -> Seq<Seq<char>> {
    v.map_values(|s: String| s@)
}

// ---- the configuration ----------------------------------------------------

/// A loaded font configuration; it is not changed after loading.
pub struct AndroidFontConfig {
    font_families: Vec<FontFamily>,
    font_aliases: Vec<FontAlias>,
}

impl View for AndroidFontConfig {
    type V = ConfigView;

    closed spec fn view(&self) -> ConfigView {
        ConfigView {
            families: families_view(self.font_families@),
            aliases: aliases_view(self.font_aliases@),
        }
    }
}

impl AndroidFontConfig {
    /// Every stored font has a path.
    #[verifier::type_invariant]
    closed spec fn fonts_located(&self) -> bool {
        families_have_paths(families_view(self.font_families@))
    }

    /// Loads a configuration from the events of a manifest.
    pub fn from_events(events: &Vec<Event>) -> (r: Result<AndroidFontConfig, LoadError>)
        ensures
            match r {
                Ok(c) => load_spec(events_view(events@)) == Some((c@.families, c@.aliases)),
                Err(_) => load_spec(events_view(events@)) is None,
            },
    {
        let (font_families, font_aliases) = parse_events(events)?;
        Ok(AndroidFontConfig { font_families, font_aliases })
    }

    /// Loads a configuration from the text of a manifest.
    pub fn from_xml(text: &str) -> (r: Result<AndroidFontConfig, LoadError>)
        ensures
            match r {
                Ok(c) => load_spec(xml_events_of(text@)) == Some((c@.families, c@.aliases)),
                Err(_) => load_spec(xml_events_of(text@)) is None,
            },
    {
        let events = xml_events(text);
        AndroidFontConfig::from_events(&events)
    }

    /// The name of the first named family, or the empty text.
    pub fn default_family_name(&self) -> (r: String)
        ensures
            r@ == first_family_name(self@.families),
    {
        let ghost fams = self@.families;
        let n = self.font_families.len();
        let mut i: usize = 0;
        assert(fams.subrange(0, n as int) =~= fams);
        while i < n
            invariant
                n == fams.len(),
                fams == families_view(self.font_families@),
                i <= n,
                first_family_name(fams) == first_family_name(fams.subrange(i as int, n as int)),
            decreases n - i,
        {
            assert(fams.subrange(i as int, n as int).drop_first() =~= fams.subrange(i + 1, n as int));
            if let Some(v) = &self.font_families[i].name {
                return v.clone();
            }
            i = i + 1;
        }
        String::new()
    }

    /// The family that `name` stands for: the target of the first alias of
    /// that name, or `name` itself.
    pub fn resolve_font_family_by_alias<'a>(&'a self, name: &'a str) -> (r: &'a str)
        ensures
            r@ == resolve_name(self@.aliases, name@),
    {
        let ghost aliases = self@.aliases;
        let n = self.font_aliases.len();
        let mut i: usize = 0;
        assert(aliases.subrange(0, n as int) =~= aliases);
        while i < n
            invariant
                n == aliases.len(),
                aliases == aliases_view(self.font_aliases@),
                i <= n,
                resolve_name(aliases, name@) == resolve_name(
                    aliases.subrange(i as int, n as int),
                    name@,
                ),
            decreases n - i,
        {
            assert(aliases.subrange(i as int, n as int).drop_first() =~= aliases.subrange(
                i + 1,
                n as int,
            ));
            let alias = &self.font_aliases[i];
            if text_eq(alias.name.as_str(), name) {
                return alias.to.as_str();
            }
            i = i + 1;
        }
        name
    }

    /// Every font path with its face index, in manifest order.
    pub fn all_font_paths(&self) -> (r: Vec<(String, i32)>)
        ensures
            pairs_view(r@) == all_paths(self@.families),
    {
        let ghost fams = self@.families;
        let mut out: Vec<(String, i32)> = Vec::new();
        let n = self.font_families.len();
        let mut i: usize = 0;
        assert(fams.subrange(0, 0) =~= Seq::<FamilyView>::empty());
        assert(pairs_view(out@) =~= Seq::<(Seq<char>, i32)>::empty());
        while i < n
            invariant
                n == fams.len(),
                fams == families_view(self.font_families@),
                i <= n,
                pairs_view(out@) == all_paths(fams.subrange(0, i as int)),
            decreases n - i,
        {
            assert(fams.subrange(0, i + 1).drop_last() =~= fams.subrange(0, i as int));
            assert(fams.subrange(0, i + 1).last() == self.font_families@[i as int]@);
            proof {
                reveal_strlit("");
                assert(""@ =~= Seq::<char>::empty());
            }
            push_picked(&self.font_families[i].fonts, Pick::Any, "", &mut out);
            i = i + 1;
        }
        assert(fams.subrange(0, n as int) =~= fams);
        out
    }

    /// The names of the named families followed by the names of the aliases,
    /// in manifest order.
    pub fn all_families(&self) -> (r: Vec<String>)
        ensures
            names_view(r@) == family_names(self@.families) + alias_names(self@.aliases),
    {
        let ghost fams = self@.families;
        let ghost aliases = self@.aliases;
        let mut out: Vec<String> = Vec::new();
        let n = self.font_families.len();
        let mut i: usize = 0;
        assert(fams.subrange(0, 0) =~= Seq::<FamilyView>::empty());
        assert(names_view(out@) =~= Seq::<Seq<char>>::empty());
        while i < n
            invariant
                n == fams.len(),
                fams == families_view(self.font_families@),
                i <= n,
                names_view(out@) == family_names(fams.subrange(0, i as int)),
            decreases n - i,
        {
            assert(fams.subrange(0, i + 1).drop_last() =~= fams.subrange(0, i as int));
            if let Some(v) = &self.font_families[i].name {
                let ghost before = out@;
                out.push(v.clone());
                assert(names_view(out@) =~= names_view(before).push(v@));
            }
            i = i + 1;
        }
        assert(fams.subrange(0, n as int) =~= fams);
        let ghost head = names_view(out@);
        let m = self.font_aliases.len();
        let mut j: usize = 0;
        while j < m
            invariant
                m == aliases.len(),
                aliases == aliases_view(self.font_aliases@),
                j <= m,
                head == family_names(fams),
                names_view(out@) == head + alias_names(aliases.subrange(0, j as int)),
            decreases m - j,
        {
            let ghost before = out@;
            out.push(self.font_aliases[j].name.clone());
            assert(names_view(out@) =~= names_view(before).push(aliases[j as int].name));
            assert(alias_names(aliases.subrange(0, j + 1)) =~= alias_names(
                aliases.subrange(0, j as int),
            ).push(aliases[j as int].name));
            j = j + 1;
        }
        assert(aliases.subrange(0, m as int) =~= aliases);
        out
    }
    /// The font serving family `name` in the families of language `lang`:
    /// the first such font of the first such family that has one. A font
    /// serves `name` when its `fallbackFor` is `name`, or when it has none and
    /// `name` is `sans-serif`.
    pub fn font_path_by_family_and_lang(&self, name: &str, lang: &str) -> (r: Result<
        (&str, i32),
        String,
    >)
        ensures
            match r {
                Ok((p, x)) => {
                    let f = fallback_font(self@.families, name@, lang@);
                    f is Some && f->0.path == Some(p@) && f->0.index == x
                },
                Err(e) => fallback_font(self@.families, name@, lang@) is None && e@
                    == "not found"@,
            },
    {
        proof {
            use_type_invariant(self);
        }
        let ghost fams = self@.families;
        let n = self.font_families.len();
        let mut i: usize = 0;
        assert(fams.subrange(0, n as int) =~= fams);
        while i < n
            invariant
                n == fams.len(),
                fams == families_view(self.font_families@),
                families_have_paths(fams),
                i <= n,
                fallback_font(fams, name@, lang@) == fallback_font(
                    fams.subrange(i as int, n as int),
                    name@,
                    lang@,
                ),
            decreases n - i,
        {
            assert(fams.subrange(i as int, n as int).drop_first() =~= fams.subrange(
                i + 1,
                n as int,
            ));
            let family = &self.font_families[i];
            let in_lang = match &family.lang {
                Some(l) => text_eq(l.as_str(), lang),
                None => false,
            };
            if in_lang {
                if let Some(j) = find_serving(&family.fonts, name) {
                    let font = &family.fonts[j];
                    assert(fams[i as int].fonts[j as int] == font@);
                    match &font.path {
                        Some(p) => {
                            return Ok((p.as_str(), font.index));
                        },
                        None => {
                            // every stored font has a path
                            assert(false);
                        },
                    }
                }
            }
            i = i + 1;
        }
        Err(String::from_str("not found"))
    }

    /// The default font of language `lang`: the first regular font with a
    /// path in the first family that covers `lang` and has one. An empty
    /// `lang` is covered by the families without a language, and only by
    /// them.
    pub fn default_font_path_by_lang(&self, lang: &str) -> (r: Result<(&str, i32), &'static str>)
        ensures
            match r {
                Ok((p, x)) => {
                    let f = default_font(self@.families, lang@);
                    f is Some && f->0.path == Some(p@) && f->0.index == x
                },
                Err(e) => default_font(self@.families, lang@) is None && e@ == "not found"@,
            },
    {
        let ghost fams = self@.families;
        let n = self.font_families.len();
        let mut i: usize = 0;
        assert(fams.subrange(0, n as int) =~= fams);
        while i < n
            invariant
                n == fams.len(),
                fams == families_view(self.font_families@),
                i <= n,
                default_font(fams, lang@) == default_font(fams.subrange(i as int, n as int), lang@),
            decreases n - i,
        {
            assert(fams.subrange(i as int, n as int).drop_first() =~= fams.subrange(
                i + 1,
                n as int,
            ));
            let family = &self.font_families[i];
            let covered = match &family.lang {
                Some(l) => lang.unicode_len() > 0 && text_eq(l.as_str(), lang),
                None => lang.unicode_len() == 0,
            };
            if covered {
                if let Some(j) = find_regular(&family.fonts) {
                    let font = &family.fonts[j];
                    assert(fams[i as int].fonts[j as int] == font@);
                    proof {
                        lemma_first_regular_is_regular(fams[i as int].fonts);
                    }
                    match &font.path {
                        Some(p) => {
                            return Ok((p.as_str(), font.index));
                        },
                        None => {
                            // every stored font has a path
                            assert(false);
                        },
                    }
                }
            }
            i = i + 1;
        }
        Err("not found")
    }

    /// The fonts of family `family_name`, after resolving it as an alias: the
    /// regular fonts of every family of that name, and every font of a
    /// language family that serves it, in manifest order. Fails where there
    /// is none.
    pub fn select_family_by_name(&self, family_name: &str) -> (r: Result<
        Vec<(String, i32)>,
        &'static str,
    >)
        ensures
            ({
                let sel = selection(self@.families, resolve_name(self@.aliases, family_name@));
                match r {
                    Ok(v) => pairs_view(v@) == sel && sel.len() > 0,
                    Err(e) => sel.len() == 0 && e@ == "not found"@,
                }
            }),
    {
        let family_name = self.resolve_font_family_by_alias(family_name);
        let ghost fams = self@.families;
        let mut paths: Vec<(String, i32)> = Vec::new();
        let n = self.font_families.len();
        let mut i: usize = 0;
        assert(fams.subrange(0, 0) =~= Seq::<FamilyView>::empty());
        assert(pairs_view(paths@) =~= Seq::<(Seq<char>, i32)>::empty());
        while i < n
            invariant
                n == fams.len(),
                fams == families_view(self.font_families@),
                i <= n,
                pairs_view(paths@) == selection(fams.subrange(0, i as int), family_name@),
            decreases n - i,
        {
            assert(fams.subrange(0, i + 1).drop_last() =~= fams.subrange(0, i as int));
            assert(fams.subrange(0, i + 1).last() == self.font_families@[i as int]@);
            let family = &self.font_families[i];
            match &family.name {
                Some(name) => {
                    if text_eq(name.as_str(), family_name) {
                        push_picked(&family.fonts, Pick::Regular, family_name, &mut paths);
                    } else {
                        assert(pairs_view(paths@) =~= pairs_view(paths@) + Seq::<
                            (Seq<char>, i32),
                        >::empty());
                    }
                },
                None => {
                    push_picked(&family.fonts, Pick::Serving, family_name, &mut paths);
                },
            }
            i = i + 1;
        }
        assert(fams.subrange(0, n as int) =~= fams);
        if paths.len() > 0 {
            return Ok(paths);
        }
        Err("not found")
    }
}

/// The font that a regular scan of a family picks is regular and has a path:
/// no italic font, and none of a weight other than 400, is ever picked.
pub proof fn lemma_first_regular_is_regular(fonts: Seq<EntryView>)
    ensures
        first_regular(fonts) matches Some(f) ==> regular(f) && f.path is Some,
    decreases fonts.len(),
{
    if fonts.len() > 0 {
        lemma_first_regular_is_regular(fonts.drop_first());
    }
}

// ---- laws -----------------------------------------------------------------

/// A name that no alias carries resolves to itself.
pub proof fn lemma_resolve_unaliased(aliases: Seq<AliasView>, name: Seq<char>)
    requires
        forall|i: int| 0 <= i < aliases.len() ==> (#[trigger] aliases[i]).name != name,
    ensures
        resolve_name(aliases, name) == name,
    decreases aliases.len(),
{
    if aliases.len() > 0 {
        assert(aliases[0].name != name);
        assert forall|i: int| 0 <= i < aliases.drop_first().len() implies (
        #[trigger] aliases.drop_first()[i]).name != name by {
            assert(aliases.drop_first()[i] == aliases[i + 1]);
        }
        lemma_resolve_unaliased(aliases.drop_first(), name);
    }
}

/// The default font of a language is regular and has a path: an italic font,
/// or one of a weight other than 400, is never the default.
pub proof fn lemma_default_font_is_regular(fams: Seq<FamilyView>, lang: Seq<char>)
    ensures
        default_font(fams, lang) matches Some(f) ==> regular(f) && f.path is Some,
    decreases fams.len(),
{
    if fams.len() > 0 {
        lemma_first_regular_is_regular(fams[0].fonts);
        lemma_default_font_is_regular(fams.drop_first(), lang);
    }
}

/// `pair` is the (path, face index) of a font of `fonts` that `p` picks.
pub open spec fn picked_from(fonts: Seq<EntryView>, pair: (Seq<char>, i32), p: Pick, name: Seq<char>) -> bool {
    exists|j: int|
        0 <= j < fonts.len() && picks(p, #[trigger] fonts[j], name) && fonts[j].path == Some(pair.0)
            && fonts[j].index == pair.1
}

/// Every pair that a listing gives comes from a font that it picks; in
/// particular a regular listing never gives an italic font, nor one of a
/// weight other than 400.
pub proof fn lemma_picked_pairs_origin(fonts: Seq<EntryView>, p: Pick, name: Seq<char>)
    ensures
        forall|k: int|
            0 <= k < picked_pairs(fonts, p, name).len() ==> picked_from(
                fonts,
                #[trigger] picked_pairs(fonts, p, name)[k],
                p,
                name,
            ),
    decreases fonts.len(),
{
    if fonts.len() > 0 {
        let prev = fonts.drop_last();
        lemma_picked_pairs_origin(prev, p, name);
        let ps = picked_pairs(fonts, p, name);
        let pp = picked_pairs(prev, p, name);
        assert forall|k: int| 0 <= k < ps.len() implies picked_from(fonts, #[trigger] ps[k], p, name) by {
            if k < pp.len() {
                assert(ps[k] == pp[k]);
                assert(picked_from(prev, pp[k], p, name));
                let j = choose|j: int|
                    0 <= j < prev.len() && picks(p, #[trigger] prev[j], name) && prev[j].path
                        == Some(pp[k].0) && prev[j].index == pp[k].1;
                assert(fonts[j] == prev[j]);
            } else {
                assert(fonts[fonts.len() - 1] == fonts.last());
            }
        }
    }
}

/// `pair` comes from a regular font of a family named `name`, or from a font
/// of a language family that serves `name`.
pub open spec fn selected_from(fams: Seq<FamilyView>, pair: (Seq<char>, i32), name: Seq<char>) -> bool {
    exists|i: int|
        0 <= i < fams.len() && ((#[trigger] fams[i]).name == Some(name) && picked_from(
            fams[i].fonts,
            pair,
            Pick::Regular,
            name,
        ) || fams[i].name is None && picked_from(fams[i].fonts, pair, Pick::Serving, name))
}

/// Every font that a selection by family name lists is a regular font of a
/// family of that name, or a font of a language family that serves it: an
/// italic font, or one of a weight other than 400, of a named family is never
/// listed.
pub proof fn lemma_selection_origin(fams: Seq<FamilyView>, name: Seq<char>)
    ensures
        forall|k: int|
            0 <= k < selection(fams, name).len() ==> selected_from(
                fams,
                #[trigger] selection(fams, name)[k],
                name,
            ),
    decreases fams.len(),
{
    if fams.len() > 0 {
        let prev = fams.drop_last();
        let last = fams.last();
        lemma_selection_origin(prev, name);
        lemma_picked_pairs_origin(last.fonts, Pick::Regular, name);
        lemma_picked_pairs_origin(last.fonts, Pick::Serving, name);
        let sel = selection(fams, name);
        let sp = selection(prev, name);
        let fs = family_selection(last, name);
        assert(sel == sp + fs);
        assert forall|k: int| 0 <= k < sel.len() implies selected_from(fams, #[trigger] sel[k], name) by {
            if k < sp.len() {
                assert(sel[k] == sp[k]);
                assert(selected_from(prev, sp[k], name));
                let i = choose|i: int|
                    0 <= i < prev.len() && ((#[trigger] prev[i]).name == Some(name) && picked_from(
                        prev[i].fonts,
                        sp[k],
                        Pick::Regular,
                        name,
                    ) || prev[i].name is None && picked_from(
                        prev[i].fonts,
                        sp[k],
                        Pick::Serving,
                        name,
                    ));
                assert(fams[i] == prev[i]);
            } else {
                let m = k - sp.len();
                assert(sel[k] == fs[m]);
                assert(fams[fams.len() - 1] == last);
                match last.name {
                    Some(n) => {
                        assert(n == name);
                        assert(picked_from(last.fonts, fs[m], Pick::Regular, name));
                    },
                    None => {
                        assert(picked_from(last.fonts, fs[m], Pick::Serving, name));
                    },
                }
            }
        }
    }
}

proof fn lemma_all_paths_concat(x: Seq<FamilyView>, y: Seq<FamilyView>)
    ensures
        all_paths(x + y) == all_paths(x) + all_paths(y),
    decreases y.len(),
{
    if y.len() == 0 {
        assert(x + y =~= x);
        assert(all_paths(x) + all_paths(y) =~= all_paths(x));
    } else {
        assert((x + y).drop_last() =~= x + y.drop_last());
        assert((x + y).last() == y.last());
        lemma_all_paths_concat(x, y.drop_last());
        assert(all_paths(x + y) =~= all_paths(x) + all_paths(y));
    }
}

/// The five events of a `<family>` holding one `<font>` with text.
pub open spec fn one_font_family(
    family_attrs: Seq<(Seq<char>, Seq<char>)>,
    font_attrs: Seq<(Seq<char>, Seq<char>)>,
    content: Seq<char>,
) -> Seq<EventView> {
    seq![
        EventView::Start { name: "family"@, attributes: family_attrs },
        EventView::Start { name: "font"@, attributes: font_attrs },
        EventView::Text { content },
        EventView::End { name: "font"@ },
        EventView::End { name: "family"@ },
    ]
}

/// A `<font>` with text that stands directly in a `<family>` is listed by
/// `all_paths` once the manifest is loaded, whatever comes before and after.
pub proof fn lemma_font_in_family_listed(
    before: Seq<EventView>,
    family_attrs: Seq<(Seq<char>, Seq<char>)>,
    font_attrs: Seq<(Seq<char>, Seq<char>)>,
    content: Seq<char>,
    after: Seq<EventView>,
)
    requires
        run(before + one_font_family(family_attrs, font_attrs, content) + after) is Some,
    ensures
        font_of(font_attrs) is Some,
        all_paths(
            run(before + one_font_family(family_attrs, font_attrs, content) + after)->0.families,
        ).contains((font_dir() + trimmed_of(content), font_of(font_attrs)->0.index)),
{
    reveal_strlit("font");
    reveal_strlit("family");
    reveal_strlit("alias");
    reveal_strlit("axis");
    let mid = one_font_family(family_attrs, font_attrs, content);
    let all = before + mid + after;
    lemma_families_only_grow(before + mid, after);
    let p5 = before + mid;
    let p4 = before + mid.subrange(0, 4);
    let p3 = before + mid.subrange(0, 3);
    let p2 = before + mid.subrange(0, 2);
    let p1 = before + mid.subrange(0, 1);
    assert(p5.drop_last() =~= p4);
    assert(p4.drop_last() =~= p3);
    assert(p3.drop_last() =~= p2);
    assert(p2.drop_last() =~= p1);
    assert(p1.drop_last() =~= before);
    assert(p5.last() == mid[4]);
    assert(p4.last() == mid[3]);
    assert(p3.last() == mid[2]);
    assert(p2.last() == mid[1]);
    assert(p1.last() == mid[0]);
    assert("family"@.len() != "alias"@.len());
    assert("font"@.len() != "alias"@.len());
    assert("font"@.len() != "family"@.len());
    assert("font"@[0] != "axis"@[0]);
    assert("font"@ != "axis"@);
    assert(run(p4) is Some);
    assert(run(p3) is Some);
    assert(run(p2) is Some);
    assert(run(p1) is Some);
    assert(run(before) is Some);
    let st0 = run(before)->0;
    assert(run(p1) == step(st0, mid[0]));
    let st1 = run(p1)->0;
    let st2 = run(p2)->0;
    let st3 = run(p3)->0;
    let st4 = run(p4)->0;
    let st5 = run(p5)->0;
    lemma_family_of_fontless(family_attrs);
    assert(st1.family == family_of(family_attrs));
    assert(st2.open.last() == "font"@);
    assert(st2.open.drop_last().last() == "family"@);
    let font = st3.font;
    assert(font.path == Some(font_dir() + trimmed_of(content)));
    assert(font.index == font_of(font_attrs)->0.index);
    assert(st4.family.fonts == seq![font]);
    assert(st5.families == st4.families + expand_family(st4.family));
    lemma_expand_nonempty(st4.family);
    let fams = run(all)->0.families;
    let k = st4.families.len() as int;
    assert(fams.subrange(0, st5.families.len() as int) == st5.families);
    let e0 = fams[k];
    assert(e0 == st5.families[k]);
    assert(e0.fonts == seq![font]);
    assert(fams =~= fams.subrange(0, k) + seq![e0] + fams.subrange(k + 1, fams.len() as int));
    lemma_all_paths_concat(fams.subrange(0, k) + seq![e0], fams.subrange(k + 1, fams.len() as int));
    lemma_all_paths_concat(fams.subrange(0, k), seq![e0]);
    let single = seq![e0];
    assert(single.drop_last() =~= Seq::<FamilyView>::empty());
    assert(seq![font].drop_last() =~= Seq::<EntryView>::empty());
    let pair = (font_dir() + trimmed_of(content), font.index);
    let fs = seq![font];
    assert(fs.len() == 1);
    assert(fs.last() == font);
    assert(fs.drop_last() =~= Seq::<EntryView>::empty());
    assert(picked_pairs(fs.drop_last(), Pick::Any, Seq::empty()) == Seq::<(Seq<char>, i32)>::empty());
    assert(picked_pairs(fs, Pick::Any, Seq::empty()) == Seq::<(Seq<char>, i32)>::empty().push(pair));
    assert(picked_pairs(fs, Pick::Any, Seq::empty()) =~= seq![pair]);
    assert(all_paths(single.drop_last()) == Seq::<(Seq<char>, i32)>::empty());
    assert(single.last() == e0);
    assert(all_paths(single) =~= seq![pair]);
    let listed = all_paths(fams);
    let at = all_paths(fams.subrange(0, k)).len() as int;
    assert(listed[at] == pair);
}

/// The position of the first font of `fonts` that serves `name`.
fn find_serving(fonts: &Vec<FontEntry>, name: &str) -> (r: Option<usize>)
    ensures
        ({
            let fv = fonts@.map_values(|f: FontEntry| f@);
            match r {
                Some(j) => j < fv.len() && first_serving(fv, name@) == Some(fv[j as int]),
                None => first_serving(fv, name@) is None,
            }
        }),
{
    let ghost fv = fonts@.map_values(|f: FontEntry| f@);
    let n = fonts.len();
    let mut j: usize = 0;
    assert(fv.subrange(0, n as int) =~= fv);
    while j < n
        invariant
            n == fv.len(),
            fv == fonts@.map_values(|f: FontEntry| f@),
            j <= n,
            first_serving(fv, name@) == first_serving(fv.subrange(j as int, n as int), name@),
        decreases n - j,
    {
        assert(fv.subrange(j as int, n as int).drop_first() =~= fv.subrange(j + 1, n as int));
        if serves_name(&fonts[j], name) {
            return Some(j);
        }
        j = j + 1;
    }
    None
}

/// The position of the first regular font of `fonts` that has a path.
fn find_regular(fonts: &Vec<FontEntry>) -> (r: Option<usize>)
    ensures
        ({
            let fv = fonts@.map_values(|f: FontEntry| f@);
            match r {
                Some(j) => j < fv.len() && first_regular(fv) == Some(fv[j as int]),
                None => first_regular(fv) is None,
            }
        }),
{
    let ghost fv = fonts@.map_values(|f: FontEntry| f@);
    let n = fonts.len();
    let mut j: usize = 0;
    assert(fv.subrange(0, n as int) =~= fv);
    while j < n
        invariant
            n == fv.len(),
            fv == fonts@.map_values(|f: FontEntry| f@),
            j <= n,
            first_regular(fv) == first_regular(fv.subrange(j as int, n as int)),
        decreases n - j,
    {
        assert(fv.subrange(j as int, n as int).drop_first() =~= fv.subrange(j + 1, n as int));
        if fonts[j].is_regular() && fonts[j].path.is_some() {
            return Some(j);
        }
        j = j + 1;
    }
    None
}

/// Appends the (path, face index) pairs of the picked fonts with a path.
fn push_picked(fonts: &Vec<FontEntry>, p: Pick, name: &str, out: &mut Vec<(String, i32)>)
    ensures
        pairs_view(final(out)@) == pairs_view(old(out)@) + picked_pairs(
            fonts@.map_values(|f: FontEntry| f@),
            p,
            name@,
        ),
{
    let ghost fv = fonts@.map_values(|f: FontEntry| f@);
    let ghost start = pairs_view(out@);
    let n = fonts.len();
    let mut j: usize = 0;
    assert(fv.subrange(0, 0) =~= Seq::<EntryView>::empty());
    assert(start =~= start + Seq::<(Seq<char>, i32)>::empty());
    while j < n
        invariant
            n == fv.len(),
            fv == fonts@.map_values(|f: FontEntry| f@),
            j <= n,
            pairs_view(out@) == start + picked_pairs(fv.subrange(0, j as int), p, name@),
        decreases n - j,
    {
        let font = &fonts[j];
        assert(fv.subrange(0, j + 1).drop_last() =~= fv.subrange(0, j as int));
        assert(fv.subrange(0, j + 1).last() == font@);
        let take = match p {
            Pick::Any => true,
            Pick::Regular => font.is_regular(),
            Pick::Serving => serves_name(font, name),
        };
        if let Some(path) = &font.path {
            if take {
                let ghost before = out@;
                out.push((path.clone(), font.index));
                assert(pairs_view(out@) =~= pairs_view(before).push((path@, font.index)));
            }
        }
        j = j + 1;
    }
    assert(fv.subrange(0, n as int) =~= fv);
}

/// Whether `font` serves family `name`.
fn serves_name(font: &FontEntry, name: &str) -> (r: bool)
    ensures
        r == serves(font@, name@),
{
    match &font.fallback_for {
        Some(fb) => text_eq(fb.as_str(), name),
        None => text_eq(name, "sans-serif"),
    }
}

} // verus!
