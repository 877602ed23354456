use kdl::KdlDocument;
use lat::config::{Config, ConfigError, Rule};
use lat::upto::UptoUnit;

#[test]
fn parse_simple_viewer() {
    let kdl = r#"
        rule "*.json" {
            command "json-lat"
            args "$FILE"
            defaults upto=500
        }
    "#;
    let doc: KdlDocument = kdl.parse().unwrap();
    let config = Config::from_kdl(&doc).unwrap();

    assert_eq!(config.rules.len(), 1);
    assert_eq!(config.rules[0].patterns, vec!["*.json"]);
    assert_eq!(config.rules[0].command, "json-lat");
    assert_eq!(config.rules[0].args, vec!["$FILE"]);
    assert_eq!(config.rules[0].upto(None), Some(500));
}

#[test]
fn parse_multiple_patterns() {
    let kdl = r#"
        rule "*.js" "*.ts" "*.jsx" "*.tsx" {
            command "js-lat"
            args "$FILE" "--upto" "$UPTO"
            defaults upto=1000
        }
    "#;
    let doc: KdlDocument = kdl.parse().unwrap();
    let config = Config::from_kdl(&doc).unwrap();

    assert_eq!(
        config.rules[0].patterns,
        vec!["*.js", "*.ts", "*.jsx", "*.tsx"]
    );
    assert_eq!(config.rules[0].args, vec!["$FILE", "--upto", "$UPTO"]);
}

#[test]
fn parse_without_default_upto() {
    let kdl = r#"
        rule "*.md" {
            command "cat"
            args "$FILE"
        }
    "#;
    let doc: KdlDocument = kdl.parse().unwrap();
    let config = Config::from_kdl(&doc).unwrap();

    assert_eq!(config.rules[0].upto(None), None);
}

#[test]
fn parse_multiple_rules() {
    let kdl = r#"
        rule "*.json" {
            command "json-lat"
            args "$FILE"
        }
        rule "*.md" {
            command "cat"
            args "$FILE"
        }
    "#;
    let doc: KdlDocument = kdl.parse().unwrap();
    let config = Config::from_kdl(&doc).unwrap();

    assert_eq!(config.rules.len(), 2);
}

#[test]
fn find_rule_exact_extension() {
    let kdl = r#"
        rule "*.json" {
            command "json-lat"
            args "$FILE"
        }
        rule "*.md" {
            command "cat"
            args "$FILE"
        }
    "#;
    let doc: KdlDocument = kdl.parse().unwrap();
    let config = Config::from_kdl(&doc).unwrap();

    let rule = config.find_rule("test.json").unwrap();
    assert_eq!(rule.command, "json-lat");

    let rule = config.find_rule("README.md").unwrap();
    assert_eq!(rule.command, "cat");
}

#[test]
fn find_rule_fallback() {
    let kdl = r#"
        rule "*.json" {
            command "json-lat"
            args "$FILE"
        }
        rule "*" {
            command "cat"
            args "$FILE"
        }
    "#;
    let doc: KdlDocument = kdl.parse().unwrap();
    let config = Config::from_kdl(&doc).unwrap();

    let rule = config.find_rule("unknown.xyz").unwrap();
    assert_eq!(rule.command, "cat");
}

#[test]
fn find_rule_priority() {
    let kdl = r#"
        rule "*.json" {
            command "json-lat"
            args "$FILE"
        }
        rule "*" {
            command "cat"
            args "$FILE"
        }
    "#;
    let doc: KdlDocument = kdl.parse().unwrap();
    let config = Config::from_kdl(&doc).unwrap();

    let rule = config.find_rule("data.json").unwrap();
    assert_eq!(rule.command, "json-lat");
}

fn rule(pattern: &str, command: &str) -> Rule {
    Rule::new(vec![pattern.to_string()], command.to_string(), Vec::new(), None)
}

#[test]
fn order_not_specificity_decides() {
    let config = Config {
        rules: vec![rule("*.json", "json-lat"), rule("*", "cat")],
    };
    assert_eq!(config.find_rule("data.json").unwrap().command, "json-lat");
    assert_eq!(config.find_rule("unknown.xyz").unwrap().command, "cat");

    let reversed = Config {
        rules: vec![rule("*", "cat"), rule("*.json", "json-lat")],
    };
    assert_eq!(reversed.find_rule("data.json").unwrap().command, "cat");
}

#[test]
fn later_pattern_of_earlier_rule_wins() {
    let config = Config::parse(
        r#"
        rule "Makefile" "*.mk" {
            command "make-lat"
        }
        rule "*.mk" {
            command "other"
        }
    "#,
    )
    .unwrap();
    assert_eq!(config.find_rule("rules.mk").unwrap().command, "make-lat");
    assert!(config.find_rule("makefile").is_none());
}

#[test]
fn no_rule_matches() {
    let config = Config {
        rules: vec![rule("*.json", "json-lat")],
    };
    assert!(config.find_rule("notes.txt").is_none());
    let empty = Config { rules: Vec::new() };
    assert!(empty.find_rule("a").is_none());
}

#[test]
fn explicit_limit_overrides_default() {
    let config = Config::parse(
        r#"
        rule "*.json" {
            command "json-lat"
            args "$FILE" "$UPTO"
            defaults upto=500
        }
    "#,
    )
    .unwrap();
    let rule = &config.rules[0];
    assert_eq!(rule.upto(Some(20)), Some(20));
    assert_eq!(rule.upto(None), Some(500));
    assert_eq!(
        rule.effective_limit(Some(UptoUnit::Tokens(20))),
        Some(UptoUnit::Tokens(20))
    );
    assert_eq!(rule.effective_limit(None), Some(UptoUnit::Lines(500)));
    let args = lat::dispatch::substitute_args(
        &rule.args,
        "a.json",
        rule.effective_limit(Some(UptoUnit::Characters(7))),
        None,
    );
    assert_eq!(args, vec!["a.json", "7c"]);
}

#[test]
fn no_limit_anywhere() {
    let r = rule("*", "cat");
    assert_eq!(r.effective_limit(None), None);
    assert_eq!(r.upto(None), None);
}

#[test]
fn rule_without_patterns_is_rejected() {
    let result = Config::parse(
        r#"
        rule {
            command "cat"
        }
    "#,
    );
    assert_eq!(result.unwrap_err(), ConfigError::MissingPatterns);
}

#[test]
fn named_entries_are_not_patterns() {
    let result = Config::parse(
        r#"
        rule kind="*.json" {
            command "cat"
        }
    "#,
    );
    assert_eq!(result.unwrap_err(), ConfigError::MissingPatterns);
}

#[test]
fn rule_without_command_is_rejected() {
    let result = Config::parse(
        r#"
        rule "*.md" {
            args "$FILE"
        }
    "#,
    );
    assert_eq!(result.unwrap_err(), ConfigError::MissingCommand);
}

#[test]
fn rule_without_body_is_rejected() {
    let result = Config::parse(r#"rule "*.md""#);
    assert_eq!(result.unwrap_err(), ConfigError::MissingCommand);
}

#[test]
fn command_must_be_a_string() {
    let result = Config::parse(
        r#"
        rule "*.md" {
            command 5
        }
    "#,
    );
    assert_eq!(result.unwrap_err(), ConfigError::MissingCommand);
}

#[test]
fn one_bad_rule_fails_the_whole_load() {
    let result = Config::parse(
        r#"
        rule "*.json" {
            command "json-lat"
        }
        rule "*.md" {
        }
        rule {
            command "cat"
        }
    "#,
    );
    assert_eq!(result.unwrap_err(), ConfigError::MissingCommand);
}

#[test]
fn other_nodes_are_ignored() {
    let config = Config::parse(
        r#"
        version 2
        rule "*.md" {
            command "cat"
        }
    "#,
    )
    .unwrap();
    assert_eq!(config.rules.len(), 1);
    assert!(config.rules[0].args.is_empty());
    assert_eq!(config.rules[0].default_upto, None);
}

#[test]
fn first_command_and_last_upto_count() {
    let config = Config::parse(
        r#"
        rule "*.md" 7 {
            command "first" "extra"
            command "second"
            args "a" 1 key="v" "b"
            defaults upto=10 upto=20
        }
    "#,
    )
    .unwrap();
    let r = &config.rules[0];
    assert_eq!(r.patterns, vec!["*.md"]);
    assert_eq!(r.command, "first");
    assert_eq!(r.args, vec!["a", "b"]);
    assert_eq!(r.upto(None), Some(20));
}

#[test]
fn malformed_document_is_a_syntax_error() {
    let result = Config::parse("rule \"*.md\" {");
    assert!(matches!(result, Err(ConfigError::Syntax(_))));
    assert_eq!(
        result.unwrap_err(),
        ConfigError::Syntax("Failed to parse KDL document".to_string())
    );
    assert_eq!(
        ConfigError::Syntax("Failed to parse KDL document".to_string()).message(),
        "failed to parse config: Failed to parse KDL document"
    );
}

#[test]
fn config_error_messages() {
    assert_eq!(ConfigError::NotFound.message(), "no .lat.kdl config found");
    assert_eq!(
        ConfigError::MissingPatterns.message(),
        "rule must have at least one pattern"
    );
    assert_eq!(ConfigError::MissingCommand.message(), "rule must have a command");
}

#[test]
fn empty_command_is_rejected() {
    let result = Config::parse(
        r#"
        rule "*.md" {
            command ""
        }
    "#,
    );
    assert_eq!(result.unwrap_err(), ConfigError::MissingCommand);
}

#[test]
fn default_outside_count_range_is_ignored() {
    let config = Config::parse(
        r#"
        rule "*.a" {
            command "x"
            defaults upto=-1
        }
        rule "*.b" {
            command "y"
            defaults upto=99999999999999999999999
        }
        rule "*.c" {
            command "z"
            defaults upto=0
        }
    "#,
    )
    .unwrap();
    assert_eq!(config.rules[0].upto(None), None);
    assert_eq!(config.rules[1].upto(None), None);
    assert_eq!(config.rules[2].upto(None), Some(0));
}
