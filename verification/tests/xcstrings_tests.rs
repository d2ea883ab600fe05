use xcstringstool::deserialize;
use xcstringstool::model::DiagKind;
use xcstringstool::model::Diagnostic;
use xcstringstool::model::Error;
use xcstringstool::model::Localization;
use xcstringstool::model::Root;
use xcstringstool::model::StringUnitState;

const XCSTRINGS_JSON: &str = r#"
{
  "sourceLanguage" : "en",
  "strings" : {
    "%lld books" : {
      "extractionState" : "manual",
      "localizations" : {
        "de" : {
          "variations" : {
            "plural" : {
              "one" : {
                "stringUnit" : {
                  "state" : "translated",
                  "value" : "%lld Buch"
                }
              },
              "other" : {
                "stringUnit" : {
                  "state" : "translated",
                  "value" : "%lld Bücher"
                }
              }
            }
          }
        },
        "en" : {
          "variations" : {
            "plural" : {
              "one" : {
                "stringUnit" : {
                  "state" : "translated",
                  "value" : "%lld book"
                }
              },
              "other" : {
                "stringUnit" : {
                  "state" : "translated",
                  "value" : "%lld books"
                }
              }
            }
          }
        }
      }
    },
    "device" : {
      "comment" : "this is a comment",
      "extractionState" : "manual",
      "localizations" : {
        "de" : {
          "variations" : {
            "device" : {
              "mac" : {
                "stringUnit" : {
                  "state" : "translated",
                  "value" : "Mac"
                }
              },
              "other" : {
                "stringUnit" : {
                  "state" : "translated",
                  "value" : "Andere Geräte"
                }
              }
            }
          }
        },
        "en" : {
          "variations" : {
            "device" : {
              "mac" : {
                "stringUnit" : {
                  "state" : "translated",
                  "value" : "Mac"
                }
              },
              "other" : {
                "stringUnit" : {
                  "state" : "translated",
                  "value" : "Other Devices"
                }
              }
            }
          }
        }
      }
    },
    "farewell" : {
      "comment" : "comment 2",
      "extractionState" : "manual",
      "localizations" : {
        "de" : {
          "stringUnit" : {
            "state" : "translated",
            "value" : "auf wiedersehen"
          }
        },
        "en" : {
          "stringUnit" : {
            "state" : "translated",
            "value" : "goodbye"
          }
        }
      }
    },
    "greeting" : {
      "extractionState" : "manual",
      "localizations" : {
        "de" : {
          "stringUnit" : {
            "state" : "translated",
            "value" : "hallo"
          }
        },
        "en" : {
          "stringUnit" : {
            "state" : "translated",
            "value" : "hello"
          }
        }
      }
    }
  },
  "version" : "1.0"
}
"#;

fn lookup<'a>(table: &'a [(String, String)], key: &str) -> Option<&'a str> {
    table
        .iter()
        .find(|(k, _)| k == key)
        .map(|(_, v)| v.as_str())
}

fn has_key(table: &[(String, String)], key: &str) -> bool {
    table.iter().any(|(k, _)| k == key)
}

fn has_diag(diags: &[Diagnostic], kind: DiagKind, key: &str, locale: &str) -> bool {
    diags
        .iter()
        .any(|d| d.kind == kind && d.key == key && d.locale == locale)
}

fn contains_key(root: &Root, key: &str) -> bool {
    root.strings.iter().any(|(k, _)| k == key)
}

#[test]
fn test_parse() {
    let result = deserialize(XCSTRINGS_JSON);
    assert!(result.is_ok());

    let root = result.unwrap();
    assert_eq!(root.version, "1.0");

    assert!(contains_key(&root, "farewell"));
}

#[test]
fn test_root_fields_parsed_correctly() {
    let parsed = deserialize(XCSTRINGS_JSON).expect("Parsing failed");
    assert_eq!(parsed.version, "1.0");
    assert_eq!(parsed.strings.len(), 4);
}

#[test]
fn test_string_entry_fields() {
    let parsed = deserialize(XCSTRINGS_JSON).expect("Parsing failed");

    // Check the "device" entry specifically
    let device_entry = parsed.entry("device").expect("Missing 'device' key");
    assert!(device_entry.localization("de").is_some());
    assert!(device_entry.localization("en").is_some());
}

#[test]
fn test_localization_with_string_unit() {
    let parsed = deserialize(XCSTRINGS_JSON).expect("Parsing failed");
    let farewell_entry = parsed.entry("farewell").expect("Missing 'farewell' key");
    let de_loc = farewell_entry
        .localization("de")
        .expect("Missing 'de' localization");

    // Assert that this localization uses the fixed shape, not variations
    assert!(matches!(de_loc, Localization::Fixed(_)));

    if let Localization::Fixed(unit) = de_loc {
        assert!(matches!(unit.state, StringUnitState::Translated));
        assert_eq!(unit.value, "auf wiedersehen");
    }
}

#[test]
fn test_parse_reads_source_language_and_metadata() {
    let parsed = deserialize(XCSTRINGS_JSON).expect("Parsing failed");
    assert_eq!(parsed.source_language, "en");
    let device_entry = parsed.entry("device").expect("Missing 'device' key");
    assert_eq!(device_entry.comment.as_deref(), Some("this is a comment"));
    let greeting_entry = parsed.entry("greeting").expect("Missing 'greeting' key");
    assert!(greeting_entry.comment.is_none());
}

#[test]
fn resolve_all_two_locales_two_fixed_keys() {
    // Catalog with one key "greeting": en -> "hello", de -> "hallo", both translated.
    let doc = r#"{
      "version": "1.0",
      "sourceLanguage": "en",
      "strings": {
        "greeting": {
          "localizations": {
            "en": { "stringUnit": { "state": "translated", "value": "hello" } },
            "de": { "stringUnit": { "state": "translated", "value": "hallo" } }
          }
        }
      }
    }"#;
    let root = deserialize(doc).expect("parse");
    let (all, _diags) = root.all_strings();
    assert_eq!(all.len(), 2);
    let en = all.iter().find(|(l, _)| l == "en").expect("en table");
    let de = all.iter().find(|(l, _)| l == "de").expect("de table");
    assert_eq!(en.1.len(), 1);
    assert_eq!(lookup(&en.1, "greeting"), Some("hello"));
    assert_eq!(de.1.len(), 1);
    assert_eq!(lookup(&de.1, "greeting"), Some("hallo"));
}

#[test]
fn unsupported_version_is_rejected() {
    let doc = r#"{
      "version": "2.0",
      "sourceLanguage": "en",
      "strings": {
        "greeting": {
          "localizations": {
            "en": { "stringUnit": { "state": "translated", "value": "hello" } },
            "de": { "stringUnit": { "state": "translated", "value": "hallo" } }
          }
        }
      }
    }"#;
    match deserialize(doc) {
        Err(Error::UnsupportedVersion { expected, found }) => {
            assert_eq!(expected, "1.0");
            assert_eq!(found, "2.0");
        }
        _ => panic!("expected an unsupported-version error"),
    }
}

#[test]
fn unsupported_version_wins_over_malformed_strings() {
    // The version gate comes first even when the rest of the document is junk.
    let doc = r#"{ "version": "3.1", "strings": 7 }"#;
    match deserialize(doc) {
        Err(Error::UnsupportedVersion { expected, found }) => {
            assert_eq!(expected, "1.0");
            assert_eq!(found, "3.1");
        }
        _ => panic!("expected an unsupported-version error"),
    }
}

#[test]
fn malformed_document_is_rejected() {
    assert!(matches!(deserialize("{ not json"), Err(Error::Parse(_))));
    assert!(matches!(deserialize("[1, 2]"), Err(Error::Parse(_))));
    // Structurally valid JSON of the wrong shape.
    assert!(matches!(
        deserialize(r#"{ "version": "1.0", "strings": { "k": { } } }"#),
        Err(Error::Parse(_))
    ));
    // A node carrying both shapes at once is rejected.
    assert!(matches!(
        deserialize(
            r#"{ "version": "1.0", "strings": { "k": { "localizations": {
                "en": { "stringUnit": { "state": "translated", "value": "v" },
                        "variations": { "plural": {} } } } } } }"#
        ),
        Err(Error::Parse(_))
    ));
    // A missing or non-string version is a shape error, not a version error.
    assert!(matches!(
        deserialize(r#"{ "strings": {} }"#),
        Err(Error::Parse(_))
    ));
    assert!(matches!(
        deserialize(r#"{ "version": 1, "strings": {} }"#),
        Err(Error::Parse(_))
    ));
    // A wrongly-typed sourceLanguage is rejected too.
    assert!(matches!(
        deserialize(r#"{ "version": "1.0", "sourceLanguage": 3, "strings": {} }"#),
        Err(Error::Parse(_))
    ));
}

#[test]
fn missing_localization_is_skipped_and_reported() {
    // "farewell" has only an "en" localization.
    let doc = r#"{
      "version": "1.0",
      "sourceLanguage": "en",
      "strings": {
        "greeting": {
          "localizations": {
            "en": { "stringUnit": { "state": "translated", "value": "hello" } },
            "de": { "stringUnit": { "state": "translated", "value": "hallo" } }
          }
        },
        "farewell": {
          "localizations": {
            "en": { "stringUnit": { "state": "translated", "value": "goodbye" } }
          }
        }
      }
    }"#;
    let root = deserialize(doc).expect("parse");

    let (de, de_diags) = root.strings_for_localization("de");
    assert!(!has_key(&de, "farewell"));
    assert_eq!(lookup(&de, "greeting"), Some("hallo"));
    assert!(has_diag(
        &de_diags,
        DiagKind::MissingLocalization,
        "farewell",
        "de"
    ));

    let (en, en_diags) = root.strings_for_localization("en");
    assert_eq!(lookup(&en, "farewell"), Some("goodbye"));
    assert!(en_diags.is_empty());
}

#[test]
fn untranslated_state_never_ships() {
    let doc = r#"{
      "version": "1.0",
      "strings": {
        "draft": {
          "localizations": {
            "en": { "stringUnit": { "state": "needs_review", "value": "rough" } }
          }
        },
        "done": {
          "localizations": {
            "en": { "stringUnit": { "state": "translated", "value": "polished" } }
          }
        }
      }
    }"#;
    let root = deserialize(doc).expect("parse");
    let (en, diags) = root.strings_for_localization("en");
    assert!(!has_key(&en, "draft"));
    assert_eq!(lookup(&en, "done"), Some("polished"));
    assert!(has_diag(&diags, DiagKind::UntranslatedSkipped, "draft", "en"));

    // The same entry reaches no table of resolve-all either.
    let (all, _) = root.all_strings();
    for (_, table) in &all {
        assert!(!has_key(table, "draft"));
    }

    // Nor the expanded table.
    let (expanded, ediags) = root.expanded_strings_for_localization("en");
    assert!(!has_key(&expanded, "draft"));
    assert!(has_diag(
        &ediags,
        DiagKind::UntranslatedSkipped,
        "draft",
        "en"
    ));
}

#[test]
fn resolve_all_covers_every_observed_locale() {
    // "fr" appears only on an untranslated entry: its table is empty but present.
    let doc = r#"{
      "version": "1.0",
      "strings": {
        "greeting": {
          "localizations": {
            "en": { "stringUnit": { "state": "translated", "value": "hello" } },
            "fr": { "stringUnit": { "state": "new", "value": "salut" } }
          }
        }
      }
    }"#;
    let root = deserialize(doc).expect("parse");
    let (all, diags) = root.all_strings();
    assert_eq!(all.len(), 2);
    let fr = all.iter().find(|(l, _)| l == "fr").expect("fr table");
    assert!(fr.1.is_empty());
    assert!(has_diag(&diags, DiagKind::UntranslatedSkipped, "greeting", "fr"));
}

#[test]
fn variant_entry_is_flagged_not_silently_dropped() {
    let root = deserialize(XCSTRINGS_JSON).expect("parse");
    let (de, diags) = root.strings_for_localization("de");
    // The flat table holds exactly the fixed, translated keys.
    assert_eq!(de.len(), 2);
    assert_eq!(lookup(&de, "greeting"), Some("hallo"));
    assert_eq!(lookup(&de, "farewell"), Some("auf wiedersehen"));
    assert!(!has_key(&de, "%lld books"));
    assert!(!has_key(&de, "device"));
    // Both variant entries are reported, never silently skipped.
    assert!(has_diag(&diags, DiagKind::AmbiguousVariant, "%lld books", "de"));
    assert!(has_diag(&diags, DiagKind::AmbiguousVariant, "device", "de"));
}

#[test]
fn expansion_emits_one_pair_per_category() {
    let root = deserialize(XCSTRINGS_JSON).expect("parse");
    let (de, diags) = root.expanded_strings_for_localization("de");
    assert_eq!(lookup(&de, "%lld books.one"), Some("%lld Buch"));
    assert_eq!(lookup(&de, "%lld books.other"), Some("%lld B\u{fc}cher"));
    assert_eq!(lookup(&de, "device.mac"), Some("Mac"));
    assert_eq!(lookup(&de, "device.other"), Some("Andere Ger\u{e4}te"));
    assert_eq!(lookup(&de, "greeting"), Some("hallo"));
    assert_eq!(lookup(&de, "farewell"), Some("auf wiedersehen"));
    assert_eq!(de.len(), 6);
    assert!(diags.is_empty());
}

#[test]
fn expansion_collision_is_flagged_not_overwritten() {
    // The literal key "books.one" is already taken when the plural entry
    // "books" expands its "one" branch to the same text.
    let doc = r#"{
      "version": "1.0",
      "strings": {
        "books.one": {
          "localizations": {
            "en": { "stringUnit": { "state": "translated", "value": "plain" } }
          }
        },
        "books": {
          "localizations": {
            "en": { "variations": { "plural": {
              "one": { "stringUnit": { "state": "translated", "value": "expanded" } }
            } } }
          }
        }
      }
    }"#;
    let root = deserialize(doc).expect("parse");
    let (en, diags) = root.expanded_strings_for_localization("en");
    // Entries arrive in key order, so the expansion of "books" runs first;
    // its pair stands, and the later literal key is flagged, not written over.
    assert_eq!(lookup(&en, "books.one"), Some("expanded"));
    assert_eq!(en.len(), 1);
    assert!(has_diag(&diags, DiagKind::Collision, "books.one", "en"));
}

#[test]
fn empty_localization_node_is_reported() {
    let doc = r#"{
      "version": "1.0",
      "strings": {
        "hollow": {
          "localizations": {
            "en": { }
          }
        }
      }
    }"#;
    let root = deserialize(doc).expect("parse");
    let (en, diags) = root.strings_for_localization("en");
    assert!(en.is_empty());
    assert!(has_diag(&diags, DiagKind::NoUsableTranslation, "hollow", "en"));
}

#[test]
fn unknown_fields_are_tolerated() {
    let doc = r#"{
      "version": "1.0",
      "sourceLanguage": "en",
      "projectIdentifier": 42,
      "strings": {
        "greeting": {
          "localizations": {
            "en": { "stringUnit": { "state": "translated", "value": "hello", "note": [1, null] } }
          },
          "reviewed": true
        }
      }
    }"#;
    let root = deserialize(doc).expect("parse");
    let (en, _) = root.strings_for_localization("en");
    assert_eq!(lookup(&en, "greeting"), Some("hello"));
}
