use app_compat::answers::{
    answer_string_to_bool, answer_string_to_option_bool, answer_text, get_option_string_from_user,
};
use app_compat::app_compat_app::AppCompatApp;
use app_compat::app_compat_list::{is_record_file, AppCompatList};
use app_compat::app_output_md_file_config::{option_to_string_or_empty, AppOutputMdFileConfig};
use app_compat::bool_or_none::BoolOrNone;
use app_compat::error::CompatError;
use app_compat::string_or_none::StringOrNone;

const SECTION_START: &str = "{{ raw_html( html = \"<div class='app-compat-list-section'>\") }}";
const SECTION_END: &str = "{{ raw_html( html = \"</div>\") }}";

fn record(name: &str, works: bool, without_compat: bool) -> AppCompatApp {
    AppCompatApp {
        app_name: name.to_string(),
        package_name: format!("com.example.{}", name.to_lowercase()),
        version: "1.0".to_string(),
        repo_or_download_link: StringOrNone(None),
        description: StringOrNone(None),
        works,
        works_without_compat_mode: without_compat,
        works_without_gms: BoolOrNone(None),
        works_installed_by_any_source: BoolOrNone(None),
        other_compatibility_comment: StringOrNone(None),
    }
}

fn sorted_list(records: Vec<AppCompatApp>) -> AppCompatList {
    let mut list = AppCompatList::new_from_records(records).unwrap();
    list.sort_list();
    list
}

#[test]
fn two_records_are_sorted_and_grouped() {
    let list = sorted_list(vec![record("banana", true, true), record("Apple", false, false)]);
    let names: Vec<&str> = list.records().iter().map(|a| a.app_name.as_str()).collect();
    assert_eq!(names, vec!["Apple", "banana"]);
    let cards = list.print_cards_list().unwrap();
    let a = cards.find("\n# A\n").unwrap();
    let b = cards.find("\n# B\n").unwrap();
    assert!(a < b);
    assert_eq!(cards.matches("\n# ").count(), 2);
    assert_eq!(cards.matches("app_compat_card(").count(), 2);
    assert_eq!(cards.matches(SECTION_START).count(), 2);
    assert_eq!(cards.matches(SECTION_END).count(), 2);
    let apple = cards.find("app_name = \"Apple\"").unwrap();
    let banana = cards.find("app_name = \"banana\"").unwrap();
    assert!(a < apple && apple < b && b < banana);
    assert!(cards.starts_with("\n# A\n"));
    assert!(cards.ends_with(SECTION_END));
}

#[test]
fn card_list_has_exact_layout() {
    let list = sorted_list(vec![record("banana", true, true), record("Apple", false, false)]);
    let apple = list.records()[0].print_card_line().unwrap();
    let banana = list.records()[1].print_card_line().unwrap();
    let expected = [
        "\n# A\n",
        SECTION_START,
        apple.as_str(),
        SECTION_END,
        "\n# B\n",
        SECTION_START,
        banana.as_str(),
        SECTION_END,
    ]
    .join("\n");
    assert_eq!(list.print_cards_list().unwrap(), expected);
}

#[test]
fn one_card_per_record_in_name_order() {
    let list = sorted_list(vec![
        record("cherry", true, false),
        record("Avocado", true, true),
        record("apricot", false, false),
        record("Blueberry", true, true),
        record("almond", true, true),
    ]);
    let names: Vec<&str> = list.records().iter().map(|a| a.app_name.as_str()).collect();
    assert_eq!(names, vec!["almond", "apricot", "Avocado", "Blueberry", "cherry"]);
    let cards = list.print_cards_list().unwrap();
    assert_eq!(cards.matches("app_compat_card(").count(), 5);
    let mut at = 0;
    for name in names {
        let pos = cards.find(&format!("app_name = \"{}\"", name)).unwrap();
        assert!(pos >= at);
        at = pos;
    }
    assert_eq!(cards.matches("\n# ").count(), 3);
    assert_eq!(cards.matches(SECTION_END).count(), 3);
}

#[test]
fn card_line_exact() {
    let mut app = record("Apple", false, false);
    app.repo_or_download_link = StringOrNone(Some("https://example.com/apple".to_string()));
    app.description = StringOrNone(Some("Fruit".to_string()));
    let expected = "{{ app_compat_card( app_name = \"Apple\", package_name = \"com.example.apple\", version = \"1.0\", repo_or_download_link = \"https://example.com/apple\", link_host = \"example.com\", description = \"Fruit\", works = false, general_status_icon = \"❌\", works_without_gms = \"?\", works_installed_by_any_source = \"?\", other_compatibility_comment = \"\" ) }}";
    assert_eq!(app.print_card_line().unwrap(), expected);
}

#[test]
fn malformed_link_fails() {
    let mut app = record("Broken", true, true);
    app.repo_or_download_link = StringOrNone(Some("not a url".to_string()));
    let err = CompatError::MalformedLink("not a url".to_string());
    assert_eq!(app.print_card_line(), Err(err.clone()));
    assert_eq!(err.message(), "error parsing url for not a url");
    let mut other = record("Alpha", true, true);
    other.repo_or_download_link = StringOrNone(Some("mailto:someone".to_string()));
    let list = sorted_list(vec![app, other]);
    assert_eq!(
        list.print_cards_list(),
        Err(CompatError::MalformedLink("mailto:someone".to_string()))
    );
}

#[test]
fn absent_link_renders_empty_host() {
    let app = record("Plain", true, true);
    let card = app.print_card_line().unwrap();
    assert!(card.contains("repo_or_download_link = \"\", link_host = \"\","));
}

#[test]
fn link_host_is_extracted() {
    let mut app = record("Hosted", true, true);
    app.repo_or_download_link = StringOrNone(Some("https://git.example.org/a/b?c=d".to_string()));
    let card = app.print_card_line().unwrap();
    assert!(card.contains("link_host = \"git.example.org\""));
    assert_eq!(
        app.print_card_line_with_host("h.example"),
        card.replace("git.example.org\", description", "h.example\", description")
    );
}

#[test]
fn empty_collection() {
    let list = sorted_list(vec![]);
    assert_eq!(list.print_md_toc(), "");
    assert_eq!(
        list.print_md_toc_wrapped_in_div(),
        "{{ raw_html( html = \"<div class='toc'>\") }}\n\n{{ raw_html( html = \"</div>\") }}"
    );
    assert_eq!(list.print_cards_list().unwrap(), SECTION_END);
}

#[test]
fn status_glyphs() {
    assert_eq!(record("a", true, true).general_status_icon(), "✅");
    assert_eq!(record("a", true, false).general_status_icon(), "⚠️");
    assert_eq!(record("a", false, false).general_status_icon(), "❌");
    assert_eq!(record("a", false, true).general_status_icon(), "❌");
    assert!(record("a", true, false).print_card_line().unwrap().contains("general_status_icon = \"⚠️\""));
}

#[test]
fn sanitize_is_idempotent_without_paragraph_fields() {
    let mut app = record("Say \"hi\"", true, true);
    app.version = "\"1\"".to_string();
    app.repo_or_download_link = StringOrNone(Some("https://e.com/\"q\"".to_string()));
    let once = app.sanitize();
    assert_eq!(once.app_name, "Say 'hi'");
    assert_eq!(once.version, "'1'");
    assert_eq!(once.repo_or_download_link, StringOrNone(Some("https://e.com/'q'".to_string())));
    assert_eq!(once.sanitize(), once);
}

#[test]
fn sanitize_wraps_paragraphs() {
    let mut app = record("Notes", true, true);
    app.description = StringOrNone(Some("  first \"line\"\nsecond\n".to_string()));
    app.other_compatibility_comment = StringOrNone(Some("".to_string()));
    app.repo_or_download_link = StringOrNone(Some("https://e.com/a\nb".to_string()));
    let s = app.sanitize();
    assert_eq!(s.description, StringOrNone(Some("<p>first 'line'</p><p>second</p>".to_string())));
    assert_eq!(s.other_compatibility_comment, StringOrNone(Some("<p></p>".to_string())));
    assert_eq!(s.repo_or_download_link, StringOrNone(Some("https://e.com/a\nb".to_string())));
}

#[test]
fn in_place_sanitizers() {
    let mut app = record("A\"b", true, true);
    app.other_compatibility_comment = StringOrNone(Some("x\ny".to_string()));
    app.replace_double_quotes_from_all_string_fields();
    assert_eq!(app.app_name, "A'b");
    app.replace_new_lines_with_p_tags();
    assert_eq!(app.other_compatibility_comment, StringOrNone(Some("<p>x</p><p>y</p>".to_string())));
}

#[test]
fn string_or_none_transforms() {
    let s = StringOrNone(Some("a \"b\"".to_string()));
    assert_eq!(s.replace_double_quotes_with_single_quotes(), StringOrNone(Some("a 'b'".to_string())));
    assert_eq!(StringOrNone(None).replace_double_quotes_with_single_quotes(), StringOrNone(None));
    assert_eq!(StringOrNone(None).replace_new_lines_with_p_tags(), StringOrNone(None));
    assert_eq!(
        StringOrNone(Some("\n one\ntwo \n".to_string())).replace_new_lines_with_p_tags(),
        StringOrNone(Some("<p>one</p><p>two</p>".to_string()))
    );
    assert_eq!(s.to_string(), "a \"b\"");
    assert_eq!(StringOrNone(None).to_string(), "");
}

#[test]
fn tri_state_round_trip() {
    for v in [Some(true), Some(false), None] {
        let shown = BoolOrNone(v).to_string();
        assert!(shown == "yes" || shown == "no" || shown == "?");
        assert_eq!(answer_string_to_option_bool(shown), BoolOrNone(v));
    }
    assert_eq!(BoolOrNone(Some(true)).to_string(), "yes");
    assert_eq!(BoolOrNone(Some(false)).to_string(), "no");
    assert_eq!(BoolOrNone(None).to_string(), "?");
}

#[test]
fn lenient_answers() {
    assert_eq!(answer_string_to_option_bool(" Y\n".to_string()), BoolOrNone(Some(true)));
    assert_eq!(answer_string_to_option_bool("NO".to_string()), BoolOrNone(Some(false)));
    assert_eq!(answer_string_to_option_bool("".to_string()), BoolOrNone(None));
    assert_eq!(answer_string_to_option_bool("idk".to_string()), BoolOrNone(None));
    assert_eq!(answer_string_to_option_bool("maybe".to_string()), BoolOrNone(None));
}

#[test]
fn strict_answers() {
    assert_eq!(answer_string_to_bool("Yes\n".to_string()), Ok(true));
    assert_eq!(answer_string_to_bool("y".to_string()), Ok(true));
    assert_eq!(answer_string_to_bool("  n ".to_string()), Ok(false));
    assert_eq!(answer_string_to_bool("No".to_string()), Ok(false));
    assert_eq!(answer_string_to_bool("maybe".to_string()), Err(CompatError::InvalidAnswer));
    assert_eq!(answer_string_to_bool("".to_string()), Err(CompatError::InvalidAnswer));
}

#[test]
fn text_answers() {
    assert_eq!(answer_text("  Name \n", false), Some("Name".to_string()));
    assert_eq!(answer_text(" \n", false), None);
    assert_eq!(answer_text(" \n", true), Some("".to_string()));
    assert_eq!(get_option_string_from_user("".to_string()), StringOrNone(None));
    assert_eq!(get_option_string_from_user("x".to_string()), StringOrNone(Some("x".to_string())));
}

#[test]
fn toc_letters_distinct_and_sorted() {
    let list = sorted_list(vec![
        record("delta", true, true),
        record("Alpha", true, true),
        record("dart", true, true),
        record("beta", true, true),
        record("Dune", true, true),
        record("avocado", true, true),
    ]);
    let letters: Vec<&str> = list.toc_letters().iter().map(|s| s.as_str()).collect();
    assert_eq!(letters, vec!["a", "b", "d"]);
    assert_eq!(list.print_md_toc(), "[A](#a) | [B](#b) | [D](#d)");
    assert_eq!(
        list.print_md_toc_wrapped_in_div(),
        "{{ raw_html( html = \"<div class='toc'>\") }}\n[A](#a) | [B](#b) | [D](#d)\n{{ raw_html( html = \"</div>\") }}"
    );
}

#[test]
fn toc_letters_in_discovery_order_before_sort() {
    let list = AppCompatList::new_from_records(vec![
        record("zeta", true, true),
        record("Alpha", true, true),
        record("zulu", true, true),
    ])
    .unwrap();
    let letters: Vec<&str> = list.toc_letters().iter().map(|s| s.as_str()).collect();
    assert_eq!(letters, vec!["z", "a"]);
}

#[test]
fn empty_name_is_refused() {
    let r = AppCompatList::new_from_records(vec![record("ok", true, true), record("", true, true)]);
    assert!(matches!(r, Err(CompatError::EmptyInput)));
}

#[test]
fn first_char_is_upper_cased() {
    assert_eq!(record("apple", true, true).get_name_first_char(), "A");
    assert_eq!(record("Zed", true, true).get_name_first_char(), "Z");
    assert_eq!(record("9lives", true, true).get_name_first_char(), "9");
    assert_eq!(record("éclair", true, true).get_name_first_char(), "É");
    assert_eq!(record("ßtraße", true, true).get_name_first_char(), "SS");
    assert_eq!(record("Éclair", true, true).folded_first_char(), "é");
}

#[test]
fn record_file_names() {
    assert!(is_record_file("app.yaml", false));
    assert!(is_record_file("app.yml", false));
    assert!(!is_record_file("app.yaml", true));
    assert!(!is_record_file("_template.yaml", false));
    assert!(!is_record_file(".hidden.yaml", false));
    assert!(!is_record_file("notes.txt", false));
    assert!(!is_record_file("yaml", false));
}

#[test]
fn entered_record_drops_inapplicable_answers() {
    let r = AppCompatApp::new_from_command_line(
        " App ".to_string(),
        "com.app".to_string(),
        "2\n".to_string(),
        StringOrNone(Some("  ".to_string())),
        StringOrNone(Some(" d ".to_string())),
        false,
        true,
        BoolOrNone(Some(true)),
        BoolOrNone(Some(false)),
        StringOrNone(Some("c".to_string())),
    )
    .unwrap();
    assert_eq!(r.app_name, "App");
    assert_eq!(r.version, "2");
    assert_eq!(r.repo_or_download_link, StringOrNone(None));
    assert!(!r.works_without_compat_mode);
    assert_eq!(r.works_without_gms, BoolOrNone(None));
    assert_eq!(r.works_installed_by_any_source, BoolOrNone(None));
    assert_eq!(r.other_compatibility_comment, StringOrNone(None));
    assert_eq!(r.description, StringOrNone(Some("d".to_string())));
    let w = AppCompatApp::new_from_command_line(
        "App".to_string(),
        "com.app".to_string(),
        "2".to_string(),
        StringOrNone(None),
        StringOrNone(None),
        true,
        true,
        BoolOrNone(Some(true)),
        BoolOrNone(Some(false)),
        StringOrNone(Some("c".to_string())),
    )
    .unwrap();
    assert!(w.works_without_compat_mode);
    assert_eq!(w.works_without_gms, BoolOrNone(Some(true)));
    assert_eq!(w.works_installed_by_any_source, BoolOrNone(Some(false)));
    assert_eq!(w.other_compatibility_comment, StringOrNone(Some("c".to_string())));
}

#[test]
fn whole_document() {
    let list = sorted_list(vec![record("Apple", true, true)]);
    let config = AppOutputMdFileConfig {
        title: "Apps".to_string(),
        description: "List".to_string(),
        alias: "apps".to_string(),
        before_text: Some("Before".to_string()),
        after_text: None,
    };
    let doc = config.render_document(&list).unwrap();
    let expected = format!(
        "+++\ntitle = \"Apps\"\ndescription = \"List\"\n\n[extra]\n\nrelated = []\n+++\nBefore\n{}\n{}\n\n",
        list.print_md_toc_wrapped_in_div(),
        list.print_cards_list().unwrap()
    );
    assert_eq!(doc, expected);
    assert_eq!(option_to_string_or_empty(Some("x".to_string())), "x");
    assert_eq!(option_to_string_or_empty(None), "");
}

#[test]
fn error_messages() {
    assert_eq!(CompatError::InvalidAnswer.message(), "An unrecognized value was entered.");
    assert!(!CompatError::EmptyInput.message().is_empty());
    assert_eq!(CompatError::MalformedLink("x y".to_string()).message(), "error parsing url for x y");
}

#[test]
fn equal_names_keep_their_order() {
    let list = sorted_list(vec![
        record("beta", true, true),
        record("apple", true, false),
        record("Apple", false, false),
        record("APPLE", true, true),
    ]);
    let names: Vec<&str> = list.records().iter().map(|a| a.app_name.as_str()).collect();
    assert_eq!(names, vec!["apple", "Apple", "APPLE", "beta"]);
}

#[test]
fn entered_record_needs_required_texts() {
    let r = AppCompatApp::new_from_command_line(
        "  ".to_string(),
        "com.app".to_string(),
        "2".to_string(),
        StringOrNone(None),
        StringOrNone(None),
        true,
        true,
        BoolOrNone(None),
        BoolOrNone(None),
        StringOrNone(None),
    );
    assert_eq!(r, Err(CompatError::EmptyInput));
}

#[test]
fn non_ascii_letters_group_case_insensitively() {
    let list = sorted_list(vec![
        record("Éa", true, true),
        record("éb", true, true),
        record("Éc", true, true),
        record("zed", true, true),
    ]);
    let cards = list.print_cards_list().unwrap();
    assert_eq!(cards.matches("\n# ").count(), 2);
    assert_eq!(cards.matches("\n# É\n").count(), 1);
    assert_eq!(cards.matches("\n# é\n").count(), 0);
    assert_eq!(cards.matches(SECTION_END).count(), 2);
    let letters: Vec<&str> = list.toc_letters().iter().map(|s| s.as_str()).collect();
    assert_eq!(letters, vec!["z", "é"]);
    assert_eq!(list.print_md_toc(), "[Z](#z) | [É](#é)");
}

#[test]
fn sharp_s_heading_is_upper_cased() {
    let list = sorted_list(vec![record("ßeta", true, true)]);
    let cards = list.print_cards_list().unwrap();
    assert!(cards.starts_with("\n# SS\n"));
    assert_eq!(list.print_md_toc(), "[SS](#ß)");
}
