use flux_core::gemfile::{
    add_gem, extract_first_quoted, extract_version_specs, parse_content, parse_gem_line, remove_gem,
};

#[test]
fn test_parse_simple() {
    let content = "source 'https://rubygems.org'\ngem 'json'\n";
    let gems = parse_content(content);
    assert_eq!(gems.len(), 1);
    assert_eq!(gems[0].name, "json");
    assert!(gems[0].version.is_none());
}

#[test]
fn test_parse_with_version() {
    let content = "gem 'rails', '~> 7.0'\n";
    let gems = parse_content(content);
    assert_eq!(gems[0].name, "rails");
    assert_eq!(gems[0].version.as_deref(), Some("~> 7.0"));
}

#[test]
fn test_parse_double_quote() {
    let content = "gem \"json\"\n";
    let gems = parse_content(content);
    assert_eq!(gems[0].name, "json");
}

#[test]
fn test_no_partial_match() {
    let content = "gem 'json-rails'\n";
    let gems = parse_content(content);
    assert_eq!(gems.len(), 1);
    assert_eq!(gems[0].name, "json-rails");
    assert!(!gems.iter().any(|e| e.name == "json"));
}

#[test]
fn test_skip_comments() {
    let content = "# gem 'commented_out'\ngem 'active'\n";
    let gems = parse_content(content);
    assert_eq!(gems.len(), 1);
    assert_eq!(gems[0].name, "active");
}

#[test]
fn parse_several_version_requirements() {
    let gems = parse_content("gem 'rails', '>= 7.0', '< 8.0'\n");
    assert_eq!(gems.len(), 1);
    assert_eq!(gems[0].name, "rails");
    assert_eq!(gems[0].version.as_deref(), Some(">= 7.0, < 8.0"));
}

#[test]
fn parse_call_form_and_indentation() {
    let gems = parse_content("  gem('pry')  \n\tgem \"rake\", \"13.0\"\r\n");
    assert_eq!(gems.len(), 2);
    assert_eq!(gems[0].name, "pry");
    assert_eq!(gems[0].version, None);
    assert_eq!(gems[1].name, "rake");
    assert_eq!(gems[1].version.as_deref(), Some("13.0"));
}

#[test]
fn parse_ignores_other_lines() {
    assert!(parse_content("").is_empty());
    assert!(parse_content("\n\n").is_empty());
    assert!(parse_content("gemspec\ngems 'x'\ngem\ngem 'unterminated\n").is_empty());
    assert!(parse_gem_line("source 'https://rubygems.org'").is_none());
    assert!(parse_gem_line("gem").is_none());
    assert!(parse_gem_line("   ").is_none());
}

#[test]
fn double_quotes_are_looked_for_first() {
    assert_eq!(extract_first_quoted("'a', \"b\"").as_deref(), Some("b"));
    assert_eq!(extract_first_quoted("'a', \"b").as_deref(), Some("a"));
    assert_eq!(extract_first_quoted("no quotes"), None);
    assert_eq!(extract_first_quoted("'open"), None);
    let entry = parse_gem_line("gem 'a', \"b\"").unwrap();
    assert_eq!(entry.name, "b");
    assert_eq!(entry.version, None);
}

#[test]
fn version_specs_follow_the_name() {
    assert_eq!(extract_version_specs("'json', '~> 2.0'", "json").as_deref(), Some("~> 2.0"));
    assert_eq!(extract_version_specs("'json', '~> 2.0'", "other"), None);
    assert_eq!(extract_version_specs("'json'", "json"), None);
    assert_eq!(extract_version_specs("'json', 'open", "json").as_deref(), Some("open"));
    assert_eq!(extract_version_specs("'a', \"it's\", 'c'", "a").as_deref(), Some("it's, c"));
}

#[test]
fn add_gem_appends_a_declaration() {
    let start = "source 'https://rubygems.org'\n";
    assert_eq!(
        add_gem(start, "json", None).as_deref(),
        Some("source 'https://rubygems.org'\ngem 'json'\n")
    );
    assert_eq!(
        add_gem(start, "json", Some("~> 2.0")).as_deref(),
        Some("source 'https://rubygems.org'\ngem 'json', '~> 2.0'\n")
    );
    assert_eq!(add_gem("gem 'a'\n\n\n", "b", None).as_deref(), Some("gem 'a'\ngem 'b'\n"));
    assert_eq!(add_gem("gem 'a'", "b", None).as_deref(), Some("gem 'a'\ngem 'b'\n"));
    assert_eq!(add_gem("", "b", None).as_deref(), Some("\ngem 'b'\n"));
}

#[test]
fn add_gem_leaves_a_declared_gem_alone() {
    assert_eq!(add_gem("gem 'json'\n", "json", None), None);
    assert_eq!(add_gem("gem \"json\", '1.0'\n", "json", Some("2.0")), None);
    assert!(add_gem("gem 'json-rails'\n", "json", None).is_some());
}

#[test]
fn added_gem_is_declared_afterwards() {
    let content = add_gem("source 'https://rubygems.org'\n", "rails", Some("~> 7.0")).unwrap();
    let gems = parse_content(&content);
    assert_eq!(gems.len(), 1);
    assert_eq!(gems[0].name, "rails");
    assert_eq!(gems[0].version.as_deref(), Some("~> 7.0"));
    assert_eq!(add_gem(&content, "rails", None), None);
}

#[test]
fn remove_gem_drops_the_declaring_lines() {
    assert_eq!(remove_gem("gem 'a'\ngem 'b'\n", "a").as_deref(), Some("gem 'b'\n"));
    assert_eq!(remove_gem("gem 'a'\ngem 'b'", "b").as_deref(), Some("gem 'a'\n"));
    assert_eq!(remove_gem("gem 'a'\n", "a").as_deref(), Some("\n"));
    assert_eq!(remove_gem("gem 'a'\n# note\ngem 'a', '1'\n", "a").as_deref(), Some("# note\n"));
    assert_eq!(remove_gem("x\r\ngem 'a'\r\ny\r\n", "a").as_deref(), Some("x\ny\n"));
    assert_eq!(remove_gem("x\n\ngem 'a'\n", "a").as_deref(), Some("x\n"));
}

#[test]
fn remove_gem_without_a_declaration_changes_nothing() {
    assert_eq!(remove_gem("gem 'a'\n", "b"), None);
    assert_eq!(remove_gem("", "b"), None);
    assert_eq!(remove_gem("# gem 'b'\n", "b"), None);
}
