use csv_analyzer::registry::ColumnNameRegistry;
use csv_analyzer::text::decimal_string;
use csv_analyzer::{generate_unique_column_names, sanitize_column_name};

fn owned(items: &[&str]) -> Vec<String> {
    items.iter().map(|s| s.to_string()).collect()
}

fn all_distinct(names: &[String]) -> bool {
    for i in 0..names.len() {
        for j in (i + 1)..names.len() {
            if names[i] == names[j] {
                return false;
            }
        }
    }
    true
}

#[test]
fn sanitize_replaces_what_is_neither_alphanumeric_nor_underscore() {
    assert_eq!(sanitize_column_name("Hello World!"), "Hello_World_");
    assert_eq!(sanitize_column_name("price ($)"), "price____");
    assert_eq!(sanitize_column_name("a.b-c/d"), "a_b_c_d");
}

#[test]
fn sanitize_keeps_clean_names() {
    assert_eq!(sanitize_column_name("Name"), "Name");
    assert_eq!(sanitize_column_name("user_id_2"), "user_id_2");
    assert_eq!(sanitize_column_name("__x__"), "__x__");
    assert_eq!(sanitize_column_name(""), "");
}

#[test]
fn sanitize_neither_collapses_nor_trims() {
    assert_eq!(sanitize_column_name("  a   b  "), "__a___b__");
    assert_eq!(sanitize_column_name("---"), "___");
}

#[test]
fn sanitize_goes_by_unicode_not_ascii() {
    assert_eq!(sanitize_column_name("\u{540d}\u{524d} (kg)"), "\u{540d}\u{524d}__kg_");
    assert_eq!(sanitize_column_name("caf\u{e9}-\u{fc}ber"), "caf\u{e9}_\u{fc}ber");
    assert_eq!(sanitize_column_name("\u{663}\u{2460}\u{be}"), "\u{663}\u{2460}\u{be}");
    assert_eq!(sanitize_column_name("a\u{1f600}b"), "a_b");
}

#[test]
fn sanitize_keeps_length_and_positions() {
    let inputs: Vec<&str> =
        vec!["", "plain", "with space", "\u{e9}-\u{fc}", "a\u{1f600}b", "tab\there", "\u{3000}x"];
    for name in inputs {
        let clean: String = sanitize_column_name(name);
        let before: Vec<char> = name.chars().collect();
        let after: Vec<char> = clean.chars().collect();
        assert_eq!(before.len(), after.len());
        for i in 0..before.len() {
            if before[i].is_alphanumeric() || before[i] == '_' {
                assert_eq!(after[i], before[i]);
            } else {
                assert_eq!(after[i], '_');
            }
        }
    }
}

#[test]
fn repeated_name_gets_numbers() {
    let names: Vec<String> =
        generate_unique_column_names(owned(&["Name", "Name", "Name"]), "src");
    assert_eq!(names, owned(&["src_Name", "src_Name_1", "src_Name_2"]));
}

#[test]
fn empty_batch_gives_no_names() {
    let names: Vec<String> = generate_unique_column_names(Vec::new(), "src");
    assert_eq!(names, Vec::<String>::new());
}

#[test]
fn distinct_columns_get_their_bases() {
    let names: Vec<String> =
        generate_unique_column_names(owned(&["id", "first name", "e-mail"]), "users");
    assert_eq!(names, owned(&["users_id", "users_first_name", "users_e_mail"]));
}

#[test]
fn columns_that_sanitize_alike_share_one_counter() {
    let names: Vec<String> =
        generate_unique_column_names(owned(&["a b", "a-b", "x", "a_b", "x"]), "p");
    assert_eq!(names, owned(&["p_a_b", "p_a_b_1", "p_x", "p_a_b_2", "p_x_1"]));
}

#[test]
fn numbers_run_past_one_digit() {
    let columns: Vec<String> = vec!["v".to_string(); 12];
    let names: Vec<String> = generate_unique_column_names(columns, "t");
    assert_eq!(names.len(), 12);
    assert_eq!(names[0], "t_v");
    assert_eq!(names[9], "t_v_9");
    assert_eq!(names[10], "t_v_10");
    assert_eq!(names[11], "t_v_11");
}

#[test]
fn prefix_is_taken_as_it_is() {
    let names: Vec<String> = generate_unique_column_names(owned(&["a"]), "my file");
    assert_eq!(names, owned(&["my file_a"]));
    let bare: Vec<String> = generate_unique_column_names(owned(&["a", ""]), "");
    assert_eq!(bare, owned(&["_a", "_"]));
}

#[test]
fn nothing_is_remembered_between_calls() {
    let first: Vec<String> = generate_unique_column_names(owned(&["a", "a"]), "p");
    let second: Vec<String> = generate_unique_column_names(owned(&["a", "a"]), "p");
    assert_eq!(first, owned(&["p_a", "p_a_1"]));
    assert_eq!(second, first);
}

#[test]
fn output_is_as_long_as_input() {
    let batches: Vec<Vec<String>> = vec![
        Vec::new(),
        owned(&["a"]),
        owned(&["a", "a", "a_1", "a"]),
        vec!["same".to_string(); 40],
    ];
    for columns in batches {
        let wanted: usize = columns.len();
        assert_eq!(generate_unique_column_names(columns, "s").len(), wanted);
    }
}

#[test]
fn all_duplicate_batch_gets_distinct_names() {
    let names: Vec<String> = generate_unique_column_names(vec!["dup".to_string(); 60], "s");
    assert_eq!(names.len(), 60);
    assert!(all_distinct(&names));
}

#[test]
fn batch_without_numbered_columns_gets_distinct_names() {
    let names: Vec<String> = generate_unique_column_names(
        owned(&["id", "id", "name", "Name", "id", "na me", "na-me", "name"]),
        "s",
    );
    assert!(all_distinct(&names));
}

#[test]
fn column_that_looks_like_a_numbered_name_takes_that_name_again() {
    let names: Vec<String> = generate_unique_column_names(owned(&["a", "a", "a_1"]), "p");
    assert_eq!(names, owned(&["p_a", "p_a_1", "p_a_1"]));
}

#[test]
fn already_unique_names_pass_unchanged_but_for_the_prefix() {
    let once: Vec<String> = generate_unique_column_names(owned(&["x", "x", "y"]), "p");
    assert_eq!(once, owned(&["p_x", "p_x_1", "p_y"]));
    let twice: Vec<String> = generate_unique_column_names(once.clone(), "q");
    assert_eq!(twice, owned(&["q_p_x", "q_p_x_1", "q_p_y"]));
    for name in &twice {
        assert!(!once.contains(name));
    }
}

#[test]
fn different_prefix_changes_every_name() {
    let columns: Vec<String> = owned(&["a", "b c", "a", "a_1"]);
    let under_p: Vec<String> = generate_unique_column_names(columns.clone(), "p");
    let under_q: Vec<String> = generate_unique_column_names(columns, "p_a");
    for i in 0..under_p.len() {
        assert_ne!(under_p[i], under_q[i]);
    }
}

#[test]
fn prefixes_that_nest_can_give_one_name_twice() {
    let first: Vec<String> = generate_unique_column_names(owned(&["b", "a_a_b"]), "a");
    assert_eq!(first, owned(&["a_b", "a_a_a_b"]));
    let second: Vec<String> = generate_unique_column_names(first.clone(), "a_a");
    assert_eq!(second[0], "a_a_a_b");
    assert!(first.contains(&second[0]));
}

#[test]
fn registry_counts_claims_per_name() {
    let mut registry: ColumnNameRegistry = ColumnNameRegistry::new();
    assert_eq!(registry.claim("a".to_string()), 0);
    assert_eq!(registry.claim("b".to_string()), 0);
    assert_eq!(registry.claim("a".to_string()), 1);
    assert_eq!(registry.claim("a".to_string()), 2);
    assert_eq!(registry.claim("b".to_string()), 1);
    assert_eq!(registry.claim("".to_string()), 0);
}

#[test]
fn decimal_rendering() {
    assert_eq!(decimal_string(0), "0");
    assert_eq!(decimal_string(7), "7");
    assert_eq!(decimal_string(10), "10");
    assert_eq!(decimal_string(101), "101");
    assert_eq!(decimal_string(65535), "65535");
    assert_eq!(decimal_string(usize::MAX), usize::MAX.to_string());
}
