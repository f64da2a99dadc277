use ssh_sync::i18n::{en, normalize, set_lang, supported, t, tr, zh, Strings};

fn strings(lang: &str) -> Strings {
    let mut s = Strings::new();
    set_lang(&mut s, lang);
    s
}

#[test]
fn english_is_default_and_complete() {
    let s = strings("en");
    assert_eq!(t(&s, "app.title"), "SSH Client");
    assert_eq!(t(&s, "login.login"), "Login");
}

#[test]
fn chinese_overrides_english() {
    let s = strings("zh");
    assert_eq!(t(&s, "app.title"), "SSH 客户端");
    assert_eq!(t(&s, "term.clear"), "清屏");
    // fallback to key for unknown keys
    assert_eq!(t(&s, "does.not.exist"), "does.not.exist");
}

#[test]
fn normalize_handles_variants() {
    assert_eq!(normalize("zh-CN"), "zh");
    assert_eq!(normalize("zh_TW"), "zh");
    assert_eq!(normalize("en-US"), "en");
    assert_eq!(normalize("fr"), "en"); // unsupported -> en
}

#[test]
fn tr_substitutes_args() {
    let s = strings("en");
    assert_eq!(
        tr(
            &s,
            "status.connecting",
            &["host".into(), "80".into(), "24".into()]
        ),
        "connecting to host (80x24)..."
    );
    let s = strings("zh");
    assert_eq!(
        tr(
            &s,
            "status.connecting",
            &["host".into(), "80".into(), "24".into()]
        ),
        "正在连接 host (80x24)..."
    );
}

#[test]
fn missing_key_in_target_falls_back_to_english() {
    // Every zh key should exist in en too; spot-check a couple.
    let en_keys: std::collections::HashSet<_> = en().iter().map(|(k, _)| *k).collect();
    for (k, _) in zh() {
        assert!(en_keys.contains(k), "zh key {k} missing from en table");
    }
}

#[test]
fn tables_are_loaded_whole() {
    let e = strings("en");
    let z = strings("ZH_hans");
    for (k, v) in en() {
        assert_eq!(t(&e, k), v);
    }
    for (k, v) in zh() {
        assert_eq!(t(&z, k), v);
    }
    assert_eq!(en().len(), zh().len());
}

#[test]
fn no_texts_before_a_language_is_set() {
    assert_eq!(t(&Strings::new(), "app.title"), "app.title");
}

#[test]
fn languages_replace_each_other() {
    let mut s = strings("zh");
    set_lang(&mut s, "en");
    assert_eq!(t(&s, "app.title"), "SSH Client");
}

#[test]
fn arguments_are_filled_in_one_after_the_other() {
    let s = strings("en");
    assert_eq!(
        tr(&s, "status.connecting", &["{1}".into(), "x".into()]),
        "connecting to x (xx{2})..."
    );
    assert_eq!(tr(&s, "{0}{0}", &["ab".into()]), "abab");
}

#[test]
fn tags_in_any_case() {
    assert_eq!(normalize("ZH"), "zh");
    assert_eq!(normalize("zhx"), "en");
    assert_eq!(normalize(""), "en");
    assert_eq!(supported("zh_cn"), "zh");
    assert_eq!(supported("ZH"), "en");
}

#[test]
fn arguments_are_filled_in() {
    let mut s = Strings::new();
    set_lang(&mut s, "en");
    let arg = |a: &str| a.to_string();
    assert_eq!(
        tr(&s, "status.connecting", &[arg("h"), arg("80"), arg("24"), arg("surplus")]),
        "connecting to h (80x24)..."
    );
    // What has no argument stays.
    assert_eq!(
        tr(&s, "status.connecting", &[arg("h")]),
        "connecting to h ({1}x{2})..."
    );
    assert_eq!(tr(&s, "status.error", &[]), t(&s, "status.error"));
}

#[test]
fn translations_have_the_same_placeholders() {
    for ((key, english), (other, chinese)) in en().into_iter().zip(zh()) {
        assert_eq!(key, other);
        for i in 0..10 {
            let hole = format!("{{{i}}}");
            assert_eq!(english.contains(&hole), chinese.contains(&hole), "{key}");
        }
    }
}
