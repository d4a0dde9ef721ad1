use android_font_config::AndroidFontConfig;

const FONTS_1: &str = r#"<?xml version="1.0" encoding="utf-8"?>
<familyset version="23">
    <family name="sans-serif">
        <font weight="100" style="normal">Roboto-Thin.ttf</font>
        <font weight="100" style="italic">Roboto-ThinItalic.ttf</font>
        <font weight="400" style="normal">Roboto-Regular.ttf</font>
        <font weight="400" style="italic">Roboto-Italic.ttf</font>
        <font weight="700" style="normal">Roboto-Bold.ttf</font>
    </family>
    <alias name="arial" to="sans-serif" />
    <alias name="helvetica" to="sans-serif" />
    <alias name="sans-serif-thin" to="sans-serif" weight="100" />
    <family name="serif">
        <font weight="400" style="normal">NotoSerif-Regular.ttf</font>
        <font weight="700" style="normal">NotoSerif-Bold.ttf</font>
    </family>
    <alias name="times" to="serif" />
    <family name="monospace">
        <font weight="400" style="normal">DroidSansMono.ttf</font>
    </family>
    <family lang="und-Thai" variant="elegant">
        <font weight="400" style="normal">NotoSansThai-Regular.ttf</font>
        <font weight="700" style="normal">NotoSansThai-Bold.ttf</font>
        <font weight="400" style="normal" fallbackFor="serif">NotoSerifThai-Regular.ttf</font>
        <font weight="700" style="normal" fallbackFor="serif">NotoSerifThai-Bold.ttf</font>
    </family>
    <family lang="und-Khmr" variant="elegant">
        <font weight="100" style="normal">NotoSansKhmer-VF.ttf
            <axis tag="wdth" stylevalue="100.0" />
            <axis tag="wght" stylevalue="26.0" />
        </font>
        <font weight="400" style="normal">NotoSansKhmer-VF.ttf
            <axis tag="wdth" stylevalue="100.0" />
            <axis tag="wght" stylevalue="400.0" />
        </font>
    </family>
    <family lang="und-Geor,und-Geok">
        <font weight="400" style="normal">NotoSansGeorgian-Regular.otf</font>
    </family>
    <family lang="zh-Hans">
        <font weight="400" style="normal" index="2">NotoSansCJK-Regular.ttc</font>
        <font weight="400" style="normal" index="2" fallbackFor="serif">NotoSerifCJK-Regular.ttc</font>
    </family>
    <family lang="ja">
        <font weight="400" style="normal" index="0">NotoSansCJK-Regular.ttc</font>
        <font weight="400" style="normal" index="0" fallbackFor="serif">NotoSerifCJK-Regular.ttc</font>
    </family>
</familyset>
"#;

fn new_from_file() -> AndroidFontConfig {
    AndroidFontConfig::from_xml(FONTS_1).unwrap()
}

#[test]
fn test_default_font() {
    let config = new_from_file();
    assert_eq!(config.default_family_name(), "sans-serif");
    assert_eq!(
        config.default_font_path_by_lang("").unwrap(),
        ("/system/fonts/Roboto-Regular.ttf", 0)
    );
}

#[test]
fn test_select_family_by_name() {
    let config = new_from_file();
    assert!(config
        .select_family_by_name("sans-serif")
        .unwrap()
        .contains(&("/system/fonts/Roboto-Regular.ttf".to_owned(), 0)));

    assert!(config
        .select_family_by_name("sans-serif")
        .unwrap()
        .contains(&("/system/fonts/NotoSansCJK-Regular.ttc".to_owned(), 0)));
    assert!(config
        .select_family_by_name("sans-serif")
        .unwrap()
        .contains(&("/system/fonts/NotoSansCJK-Regular.ttc".to_owned(), 2)));

    assert!(config
        .select_family_by_name("serif")
        .unwrap()
        .contains(&("/system/fonts/NotoSerif-Regular.ttf".to_owned(), 0)));
    assert!(config
        .select_family_by_name("serif")
        .unwrap()
        .contains(&("/system/fonts/NotoSerifThai-Regular.ttf".to_owned(), 0)));

    // Shouldn't match
    assert!(!config
        .select_family_by_name("serif")
        .unwrap()
        .contains(&("/system/fonts/NotoSansCJK-Regular.ttc".to_owned(), 0)));
    assert!(!config
        .select_family_by_name("sans-serif")
        .unwrap()
        .contains(&("/system/fonts/Roboto-Thin.ttf".to_owned(), 0)));

    // Alias
    assert!(config
        .select_family_by_name("arial")
        .unwrap()
        .contains(&("/system/fonts/Roboto-Regular.ttf".to_owned(), 0)));
}

#[test]
fn test_fallback_lang() {
    let config = new_from_file();
    // Fallback entry
    assert_eq!(
        config.default_font_path_by_lang("ja").unwrap(),
        ("/system/fonts/NotoSansCJK-Regular.ttc", 0)
    );
    assert_eq!(
        config.default_font_path_by_lang("zh-Hans").unwrap(),
        ("/system/fonts/NotoSansCJK-Regular.ttc", 2)
    );
    assert_eq!(
        config.default_font_path_by_lang("und-Khmr").unwrap(),
        ("/system/fonts/NotoSansKhmer-VF.ttf", 0)
    );
    assert_eq!(
        config.default_font_path_by_lang("und-Geor").unwrap(),
        ("/system/fonts/NotoSansGeorgian-Regular.otf", 0)
    );
    assert_eq!(
        config.default_font_path_by_lang("und-Geok").unwrap(),
        ("/system/fonts/NotoSansGeorgian-Regular.otf", 0)
    );
    assert_eq!(
        config.default_font_path_by_lang("und-Thai").unwrap(),
        ("/system/fonts/NotoSansThai-Regular.ttf", 0)
    );
}

#[test]
fn test_fallback_family_and_lang() {
    let config = new_from_file();
    assert_eq!(
        config
            .font_path_by_family_and_lang("sans-serif", "und-Thai")
            .unwrap(),
        ("/system/fonts/NotoSansThai-Regular.ttf", 0)
    );
    assert_eq!(
        config
            .font_path_by_family_and_lang("serif", "und-Thai")
            .unwrap(),
        ("/system/fonts/NotoSerifThai-Regular.ttf", 0)
    );
    assert_eq!(
        config
            .font_path_by_family_and_lang("serif", "zh-Hans")
            .unwrap(),
        ("/system/fonts/NotoSerifCJK-Regular.ttc", 2)
    );
}

#[test]
fn test_all_font_paths() {
    let config = new_from_file();
    assert!(config
        .all_font_paths()
        .contains(&("/system/fonts/NotoSansThai-Regular.ttf".to_owned(), 0)));
    assert!(config
        .all_font_paths()
        .contains(&("/system/fonts/Roboto-Thin.ttf".to_owned(), 0)));
    assert!(config
        .all_font_paths()
        .contains(&("/system/fonts/NotoSansCJK-Regular.ttc".to_owned(), 0)));
    assert!(config
        .all_font_paths()
        .contains(&("/system/fonts/NotoSansCJK-Regular.ttc".to_owned(), 2)));
}

#[test]
fn test_all_families() {
    let config = new_from_file();
    assert!(config.all_families().contains(&"sans-serif".to_owned()));
    assert!(config.all_families().contains(&"serif".to_owned()));
    assert!(config.all_families().contains(&"monospace".to_owned()));
    assert!(config.all_families().contains(&"arial".to_owned()));
}

#[test]
fn representative_manifest_scenario() {
    let config = new_from_file();
    assert_eq!(config.default_family_name(), "sans-serif");
    assert_eq!(
        config.default_font_path_by_lang("").unwrap(),
        ("/system/fonts/Roboto-Regular.ttf", 0)
    );
    assert_eq!(
        config.default_font_path_by_lang("zh-Hans").unwrap(),
        ("/system/fonts/NotoSansCJK-Regular.ttc", 2)
    );
    assert_eq!(
        config.font_path_by_family_and_lang("serif", "und-Thai").unwrap(),
        ("/system/fonts/NotoSerifThai-Regular.ttf", 0)
    );
    let arial = config.select_family_by_name("arial").unwrap();
    assert!(arial.contains(&("/system/fonts/Roboto-Regular.ttf".to_owned(), 0)));
    assert!(!arial.contains(&("/system/fonts/Roboto-Thin.ttf".to_owned(), 0)));
    let families = config.all_families();
    for name in ["sans-serif", "serif", "monospace", "arial"] {
        assert!(families.contains(&name.to_owned()));
    }
}

#[test]
fn all_families_lists_named_families_then_aliases() {
    let config = new_from_file();
    assert_eq!(
        config.all_families(),
        vec![
            "sans-serif".to_owned(),
            "serif".to_owned(),
            "monospace".to_owned(),
            "arial".to_owned(),
            "helvetica".to_owned(),
            "sans-serif-thin".to_owned(),
            "times".to_owned(),
        ]
    );
}

#[test]
fn serif_selection_is_exact_and_ordered() {
    let config = new_from_file();
    let got = config.select_family_by_name("times").unwrap();
    let want: Vec<(String, i32)> = vec![
        ("/system/fonts/NotoSerif-Regular.ttf".to_owned(), 0),
        ("/system/fonts/NotoSerifThai-Regular.ttf".to_owned(), 0),
        ("/system/fonts/NotoSerifThai-Bold.ttf".to_owned(), 0),
        ("/system/fonts/NotoSerifCJK-Regular.ttc".to_owned(), 2),
        ("/system/fonts/NotoSerifCJK-Regular.ttc".to_owned(), 0),
    ];
    assert_eq!(got, want);
}

#[test]
fn unknown_family_is_not_found() {
    let config = new_from_file();
    assert_eq!(config.select_family_by_name("no-such-family"), Err("not found"));
    assert_eq!(config.default_font_path_by_lang("xx-Nope"), Err("not found"));
    assert_eq!(
        config.font_path_by_family_and_lang("serif", "xx-Nope"),
        Err("not found".to_owned())
    );
    assert_eq!(
        config.font_path_by_family_and_lang("monospace", "und-Thai"),
        Err("not found".to_owned())
    );
}

#[test]
fn alias_resolution() {
    let config = new_from_file();
    assert_eq!(config.resolve_font_family_by_alias("arial"), "sans-serif");
    assert_eq!(config.resolve_font_family_by_alias("times"), "serif");
    assert_eq!(config.resolve_font_family_by_alias("serif"), "serif");
    assert_eq!(config.resolve_font_family_by_alias("Arial"), "Arial");
    assert_eq!(config.resolve_font_family_by_alias(""), "");
}

#[test]
fn lang_list_gives_one_family_per_tag() {
    let config = new_from_file();
    let paths = config.all_font_paths();
    let georgian = paths
        .iter()
        .filter(|p| p.0 == "/system/fonts/NotoSansGeorgian-Regular.otf")
        .count();
    assert_eq!(georgian, 2);
    assert_eq!(paths.len(), 20);
}
