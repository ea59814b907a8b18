use spec_topics::grammar::{Grammar, Manifest, Production, ProductionGroup, Section, Topic};
use spec_topics::topics::{generate_context, generate_spec_sections, generate_topic_slug, NavigationEntry};

fn topic(title: &str, definition: Option<&str>, notes: Option<&str>) -> Topic {
    Topic {
        title: title.to_string(),
        definition: definition.map(|d| d.to_string()),
        notes: notes.map(|n| n.to_string()),
    }
}

fn group(definition: &str, names: &[&str]) -> ProductionGroup {
    ProductionGroup {
        definition: definition.to_string(),
        productions: names.iter().map(|n| Production { name: n.to_string() }).collect(),
    }
}

fn sample() -> Grammar {
    Grammar {
        manifest: Manifest {
            sections: vec![
                Section {
                    title: "File Structure".to_string(),
                    topics: vec![
                        topic("Source Unit", Some("SourceUnit"), None),
                        topic("Pragmas", None, Some("specification/notes/pragmas.md")),
                    ],
                },
                Section {
                    title: "Definitions".to_string(),
                    topics: vec![topic("Contract Definition", Some("Contract"), None)],
                },
            ],
        },
        productions: vec![
            group("SourceUnit", &["SourceUnit", "SourceUnitMember"]),
            group("Contract", &["ContractDefinition", "SourceUnitMember"]),
        ],
    }
}

#[test]
fn slug_of_first_topic() {
    let g = sample();
    assert_eq!(generate_topic_slug(&g, 0, 0), "01-file-structure/01-source-unit");
}

#[test]
fn slug_of_later_topic() {
    let g = sample();
    assert_eq!(generate_topic_slug(&g, 0, 1), "01-file-structure/02-pragmas");
    assert_eq!(generate_topic_slug(&g, 1, 0), "02-definitions/01-contract-definition");
}

#[test]
fn slug_keeps_non_ascii_and_punctuation() {
    let g = Grammar {
        manifest: Manifest {
            sections: vec![Section {
                title: "ÉTAT Été".to_string(),
                topics: vec![topic("A-Z, [x]  Y", None, None)],
            }],
        },
        productions: vec![],
    };
    assert_eq!(generate_topic_slug(&g, 0, 0), "01-État-Été/01-a-z,-[x]--y");
}

#[test]
fn slug_numbers_past_two_digits() {
    let mut sections = Vec::new();
    for i in 0..100 {
        sections.push(Section {
            title: format!("S{}", i),
            topics: (0..12).map(|j| topic(&format!("T{}", j), None, None)).collect(),
        });
    }
    let g = Grammar { manifest: Manifest { sections }, productions: vec![] };
    assert_eq!(generate_topic_slug(&g, 9, 10), "10-s9/11-t10");
    assert_eq!(generate_topic_slug(&g, 99, 0), "100-s99/01-t0");
}

#[test]
fn context_locates_productions() {
    let g = sample();
    let context = generate_context(&g);
    let entries: Vec<(String, String)> = context
        .productions_location
        .iter()
        .map(|e| (e.name.clone(), e.location.clone()))
        .collect();
    assert_eq!(
        entries,
        vec![
            ("SourceUnit".to_string(), "../../01-file-structure/01-source-unit".to_string()),
            ("SourceUnitMember".to_string(), "../../01-file-structure/01-source-unit".to_string()),
            ("ContractDefinition".to_string(), "../../02-definitions/01-contract-definition".to_string()),
            ("SourceUnitMember".to_string(), "../../02-definitions/01-contract-definition".to_string()),
        ]
    );
}

#[test]
fn context_lookup_takes_last_entry() {
    let g = sample();
    let context = generate_context(&g);
    assert_eq!(
        context.location(&"SourceUnitMember".to_string()),
        Some(&"../../02-definitions/01-contract-definition".to_string())
    );
    assert_eq!(
        context.location(&"SourceUnit".to_string()),
        Some(&"../../01-file-structure/01-source-unit".to_string())
    );
    assert_eq!(context.location(&"Missing".to_string()), None);
}

#[test]
fn context_uses_first_group_of_a_definition() {
    let mut g = sample();
    g.productions.push(group("Contract", &["Other"]));
    let context = generate_context(&g);
    assert_eq!(context.productions_location.len(), 4);
    assert_eq!(context.location(&"Other".to_string()), None);
}

#[test]
fn navigation_entries_in_order() {
    let g = sample();
    let mut entries = vec![NavigationEntry { indentation_level: 0, title: "Intro".to_string(), file_path: None }];
    generate_spec_sections(&g, &mut entries);
    let got: Vec<(usize, String, Option<String>)> = entries
        .iter()
        .map(|e| (e.indentation_level, e.title.clone(), e.file_path.clone()))
        .collect();
    assert_eq!(
        got,
        vec![
            (0, "Intro".to_string(), None),
            (1, "1. File Structure".to_string(), None),
            (2, "1.1. Source Unit".to_string(), Some("01-file-structure/01-source-unit/index.md".to_string())),
            (2, "1.2. Pragmas".to_string(), Some("01-file-structure/02-pragmas/index.md".to_string())),
            (1, "2. Definitions".to_string(), None),
            (2, "2.1. Contract Definition".to_string(), Some("02-definitions/01-contract-definition/index.md".to_string())),
        ]
    );
}

#[test]
fn page_with_grammar() {
    let g = sample();
    let mut entries = Vec::new();
    let out = generate_spec_sections(&g, &mut entries);
    assert_eq!(out.pages.len(), 3);
    let page = &out.pages[0];
    assert_eq!(page.file_path, "01-file-structure/01-source-unit/index.md");
    assert_eq!(
        page.prologue,
        "# Source Unit\n\n<!-- markdownlint-disable no-inline-html -->\n<!-- markdownlint-disable no-space-in-emphasis -->\n<!-- cSpell:disable -->\n\n<div class=\"admonition summary\">\n<p class=\"admonition-title\">Grammar</p>\n"
    );
    assert_eq!(page.grammar_group, Some(0));
    assert_eq!(
        page.epilogue,
        "\n</div>\n\n--8<-- \"specification/notes/under-construction-snippet.md\"\n"
    );
    assert_eq!(out.pages[2].grammar_group, Some(1));
    assert_eq!(out.context.productions_location.len(), 4);
}

#[test]
fn page_without_grammar() {
    let g = sample();
    let mut entries = Vec::new();
    let out = generate_spec_sections(&g, &mut entries);
    let page = &out.pages[1];
    assert_eq!(page.file_path, "01-file-structure/02-pragmas/index.md");
    assert_eq!(
        page.prologue,
        "# Pragmas\n\n<!-- markdownlint-disable no-inline-html -->\n<!-- markdownlint-disable no-space-in-emphasis -->\n<!-- cSpell:disable -->\n"
    );
    assert_eq!(page.grammar_group, None);
    assert_eq!(page.epilogue, "\n--8<-- \"specification/notes/pragmas.md\"\n");
}

#[test]
fn every_link_has_a_page() {
    let g = sample();
    let mut entries = Vec::new();
    let out = generate_spec_sections(&g, &mut entries);
    let links: Vec<String> = entries.iter().filter_map(|e| e.file_path.clone()).collect();
    let files: Vec<String> = out.pages.iter().map(|p| p.file_path.clone()).collect();
    assert_eq!(links, files);
    for p in &out.pages {
        if let Some(k) = p.grammar_group {
            for prod in &g.productions[k].productions {
                let loc = out.context.location(&prod.name).unwrap();
                assert!(loc.starts_with("../../"));
            }
        }
    }
    let dir = p_dir(&out.pages[2].file_path);
    assert_eq!(out.context.location(&"ContractDefinition".to_string()).unwrap(), &format!("../../{}", dir));
}

fn p_dir(path: &str) -> String {
    path.trim_end_matches("/index.md").to_string()
}

#[test]
fn empty_manifest() {
    let g = Grammar { manifest: Manifest { sections: vec![] }, productions: vec![] };
    let mut entries = Vec::new();
    let out = generate_spec_sections(&g, &mut entries);
    assert!(entries.is_empty());
    assert!(out.pages.is_empty());
    assert!(out.context.productions_location.is_empty());
}
