use android_font_config::text::{float_text_ok, parse_i32, split_text, text_eq};
use android_font_config::{
    parse_events, AndroidFontConfig, Attribute, Event, FontAlias, FontAxis, FontEntry,
    FontFamily, LoadError,
};

fn load(text: &str) -> AndroidFontConfig {
    AndroidFontConfig::from_xml(text).unwrap()
}

fn start(name: &str, attrs: &[(&str, &str)]) -> Event {
    Event::Start {
        name: name.to_owned(),
        attributes: attrs
            .iter()
            .map(|(k, v)| Attribute { name: (*k).to_owned(), value: (*v).to_owned() })
            .collect(),
    }
}

fn end(name: &str) -> Event {
    Event::End { name: name.to_owned() }
}

fn text(t: &str) -> Event {
    Event::Text { content: t.to_owned() }
}

#[test]
fn comma_separated_langs_expand() {
    let config = load(
        r#"<familyset><family lang="aa,bb,cc" variant="compact"><font>A.ttf</font></family></familyset>"#,
    );
    for lang in ["aa", "bb", "cc"] {
        assert_eq!(config.default_font_path_by_lang(lang).unwrap(), ("/system/fonts/A.ttf", 0));
    }
    assert_eq!(config.default_font_path_by_lang("aa,bb,cc"), Err("not found"));
    assert_eq!(config.all_font_paths().len(), 3);
}

#[test]
fn space_separated_langs_expand() {
    let config = load(r#"<familyset><family lang="xx yy"><font>B.ttf</font></family></familyset>"#);
    assert_eq!(config.default_font_path_by_lang("xx").unwrap(), ("/system/fonts/B.ttf", 0));
    assert_eq!(config.default_font_path_by_lang("yy").unwrap(), ("/system/fonts/B.ttf", 0));
    assert_eq!(config.all_font_paths().len(), 2);
}

#[test]
fn comma_wins_over_space() {
    let config = load(r#"<familyset><family lang="p q,r"><font>C.ttf</font></family></familyset>"#);
    assert!(config.default_font_path_by_lang("p q").is_ok());
    assert!(config.default_font_path_by_lang("r").is_ok());
    assert!(config.default_font_path_by_lang("p").is_err());
}

#[test]
fn fonts_without_text_or_outside_family_are_dropped() {
    let config = load(
        r#"<familyset>
            <font>Stray.ttf</font>
            <family name="x">
                <font weight="400"></font>
                <font weight="400">   </font>
                <font>  Kept.ttf  </font>
            </family>
        </familyset>"#,
    );
    assert_eq!(config.all_font_paths(), vec![("/system/fonts/Kept.ttf".to_owned(), 0)]);
}

#[test]
fn index_and_weight_are_read() {
    let config = load(
        r#"<familyset><family name="f"><font weight="700">Bold.ttf</font><font index="3" weight="+400">R.ttc</font></family></familyset>"#,
    );
    assert_eq!(config.default_font_path_by_lang("").unwrap(), ("/system/fonts/R.ttc", 3));
    assert_eq!(
        config.select_family_by_name("f").unwrap(),
        vec![("/system/fonts/R.ttc".to_owned(), 3)]
    );
}

#[test]
fn bad_integer_attributes_fail_the_load() {
    let bad_weight = r#"<familyset><family name="f"><font weight="bold">A.ttf</font></family></familyset>"#;
    assert_eq!(AndroidFontConfig::from_xml(bad_weight).err(), Some(LoadError::InvalidNumber));
    let bad_index = r#"<familyset><family name="f"><font index="-">A.ttf</font></family></familyset>"#;
    assert_eq!(AndroidFontConfig::from_xml(bad_index).err(), Some(LoadError::InvalidNumber));
    let bad_alias = r#"<familyset><alias name="a" to="b" weight="99999999999"/></familyset>"#;
    assert_eq!(AndroidFontConfig::from_xml(bad_alias).err(), Some(LoadError::InvalidNumber));
    let ok_alias = r#"<familyset><alias name="a" to="b" weight="-5"/></familyset>"#;
    assert!(AndroidFontConfig::from_xml(ok_alias).is_ok());
}

#[test]
fn empty_manifest() {
    let config = load("<familyset/>");
    assert_eq!(config.default_family_name(), "");
    assert!(config.all_font_paths().is_empty());
    assert!(config.all_families().is_empty());
    assert_eq!(config.default_font_path_by_lang(""), Err("not found"));
    assert_eq!(config.select_family_by_name("sans-serif"), Err("not found"));
}

#[test]
fn first_alias_wins() {
    let config = load(
        r#"<familyset><alias name="a" to="one"/><alias name="a" to="two"/></familyset>"#,
    );
    assert_eq!(config.resolve_font_family_by_alias("a"), "one");
    assert_eq!(config.resolve_font_family_by_alias("b"), "b");
}

#[test]
fn sans_serif_takes_fonts_without_fallback() {
    let config = load(
        r#"<familyset>
            <family lang="ko"><font fallbackFor="serif">S.ttf</font><font>N.ttf</font></family>
        </familyset>"#,
    );
    assert_eq!(
        config.font_path_by_family_and_lang("sans-serif", "ko").unwrap(),
        ("/system/fonts/N.ttf", 0)
    );
    assert_eq!(
        config.font_path_by_family_and_lang("serif", "ko").unwrap(),
        ("/system/fonts/S.ttf", 0)
    );
    assert_eq!(
        config.select_family_by_name("sans-serif").unwrap(),
        vec![("/system/fonts/N.ttf".to_owned(), 0)]
    );
}

#[test]
fn events_load_directly() {
    let events = vec![
        start("familyset", &[]),
        start("family", &[("name", "m"), ("variant", "v")]),
        start("font", &[("style", "italic")]),
        text("I.ttf"),
        start("axis", &[("tag", "wght"), ("stylevalue", "400.0")]),
        end("axis"),
        end("font"),
        start("font", &[("style", "italic"), ("style", "normal")]),
        text(" U.ttf "),
        end("font"),
        end("family"),
        start("alias", &[("name", "mm"), ("to", "m"), ("weight", "300")]),
        end("alias"),
        Event::Other,
        end("familyset"),
    ];
    let (families, aliases) = parse_events(&events).unwrap();
    assert_eq!(families.len(), 1);
    assert_eq!(families[0].name.as_deref(), Some("m"));
    assert_eq!(families[0].variant.as_deref(), Some("v"));
    assert_eq!(families[0].fonts.len(), 2);
    assert!(families[0].fonts[0].italic);
    assert_eq!(families[0].fonts[0].axis.len(), 1);
    assert_eq!(families[0].fonts[0].axis[0].tag, "wght");
    assert_eq!(families[0].fonts[0].axis[0].stylevalue, "400.0");
    assert!(!families[0].fonts[1].italic);
    assert_eq!(families[0].fonts[1].path.as_deref(), Some("/system/fonts/U.ttf"));
    assert_eq!(aliases.len(), 1);
    assert_eq!(aliases[0].weight, Some(300));

    let config = AndroidFontConfig::from_events(&events).unwrap();
    assert_eq!(
        config.select_family_by_name("mm").unwrap(),
        vec![("/system/fonts/U.ttf".to_owned(), 0)]
    );
}

#[test]
fn text_outside_font_is_ignored() {
    let events = vec![start("family", &[]), text("Loose.ttf"), start("font", &[]), end("font"), end("family")];
    let config = AndroidFontConfig::from_events(&events).unwrap();
    assert!(config.all_font_paths().is_empty());
}

#[test]
fn is_regular_rule() {
    let mut f = FontEntry::new();
    assert!(f.is_regular());
    f.weight = Some(400);
    assert!(f.is_regular());
    f.weight = Some(700);
    assert!(!f.is_regular());
    f.weight = Some(0);
    assert!(!f.is_regular());
    f.weight = None;
    f.italic = true;
    assert!(!f.is_regular());
    f.weight = Some(400);
    assert!(!f.is_regular());
}

#[test]
fn heavy_and_italic_fonts_are_never_default() {
    let config = load(
        r#"<familyset><family name="h"><font weight="700">B.ttf</font><font style="italic">I.ttf</font></family></familyset>"#,
    );
    assert_eq!(config.default_font_path_by_lang(""), Err("not found"));
    assert_eq!(config.select_family_by_name("h"), Err("not found"));
}

#[test]
fn constructors_start_empty() {
    let a = FontAlias::new();
    assert!(a.name.is_empty() && a.to.is_empty() && a.weight.is_none());
    let x = FontAxis::new();
    assert!(x.tag.is_empty() && x.stylevalue.is_empty());
    let e = FontEntry::new();
    assert!(e.path.is_none() && e.weight.is_none() && !e.italic && e.fallback_for.is_none());
    assert_eq!(e.index, 0);
    assert!(e.axis.is_empty());
    let f = FontFamily::new();
    assert!(f.name.is_none() && f.lang.is_none() && f.variant.is_none() && f.fonts.is_empty());
}

#[test]
fn family_equality() {
    let mut a = FontFamily::new();
    let mut b = FontFamily::new();
    a.lang = Some("ja".to_owned());
    b.lang = Some("ja".to_owned());
    assert!(a == b);
    b.lang = Some("ko".to_owned());
    assert!(a != b);
    a.name = Some("serif".to_owned());
    b.name = Some("serif".to_owned());
    assert!(a == b);
    b.name = None;
    assert!(a != b);
}

#[test]
fn splitting_and_comparing_text() {
    assert_eq!(split_text("a,b,,c", ','), vec!["a", "b", "", "c"]);
    assert_eq!(split_text("", ','), vec![""]);
    assert_eq!(split_text("abc", ' '), vec!["abc"]);
    assert!(text_eq("und-Thai", "und-Thai"));
    assert!(!text_eq("und-Thai", "und-Tha"));
}

#[test]
fn axis_style_values_must_be_numbers() {
    let with_value = |v: &str| {
        format!(
            r#"<familyset><family name="f"><font>V.ttf<axis tag="wght" stylevalue="{}"/></font></family></familyset>"#,
            v
        )
    };
    for good in ["400.0", "26", ".5", "1.", "-3e2", "1.5E+3", "inf", "+Infinity", "-NaN"] {
        assert!(AndroidFontConfig::from_xml(&with_value(good)).is_ok(), "{}", good);
    }
    for bad in ["", ".", "abc", "1.2.3", "1e", "e5", " 1", "infinit", "0x10"] {
        assert_eq!(
            AndroidFontConfig::from_xml(&with_value(bad)).err(),
            Some(LoadError::InvalidNumber),
            "{}",
            bad
        );
    }
}

#[test]
fn float_text_matches_std() {
    for t in ["0", "1.5", "-.5e-3", "INF", "nan", "+1", "1e+10", "", "+", "-e1", "1.e1", "..1", "1e1.5"] {
        assert_eq!(float_text_ok(t), t.parse::<f64>().is_ok(), "{}", t);
    }
}

#[test]
fn empty_lang_attribute_is_not_an_absent_one() {
    let only_empty = load(r#"<familyset><family lang=""><font>E.ttf</font></family></familyset>"#);
    assert_eq!(only_empty.default_font_path_by_lang(""), Err("not found"));

    let empty_first = load(
        r#"<familyset>
            <family lang=""><font>E.ttf</font></family>
            <family><font>N.ttf</font></family>
        </familyset>"#,
    );
    assert_eq!(
        empty_first.default_font_path_by_lang("").unwrap(),
        ("/system/fonts/N.ttf", 0)
    );
}

#[test]
fn integer_text_matches_std() {
    for t in [
        "0", "400", "+7", "-7", "-", "+", "", " 1", "1 ", "12a", "2147483647", "2147483648",
        "-2147483648", "-2147483649", "99999999999999999999", "007", "+-1",
    ] {
        assert_eq!(parse_i32(t), t.parse::<i32>().ok(), "{}", t);
    }
}
