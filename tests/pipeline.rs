use ctf_writeups::assets::{asset_output_path, classify_assets, is_asset};
use ctf_writeups::event::{index_entry, page_path, process_event, CTFMeta, ChallengeMeta, RunConfig};
use ctf_writeups::front_matter::{make_front_matter, OutputType};

fn strings(v: &[&str]) -> Vec<String> {
    v.iter().map(|s| s.to_string()).collect()
}

fn config(output_type: OutputType, prefix: Option<&str>, authors: &[&str]) -> RunConfig {
    RunConfig {
        output_type,
        rewrite_url_prefix: prefix.map(|p| p.to_string()),
        authors: strings(authors),
    }
}

fn one_challenge(name: &str, key: &str, tags: Option<&[&str]>) -> CTFMeta {
    let mut meta = CTFMeta::new(name.to_string(), "2022-01-07".to_string(), None);
    assert!(meta.add_challenge(
        key.to_string(),
        ChallengeMeta { name: key.to_string(), tags: tags.map(strings) },
    ));
    meta
}

#[test]
fn it_works() {
    let meta = one_challenge("test lol", "example", Some(&["tag 1 lol"]));
    let bodies = vec![Some("hi lol".to_string())];
    let out = process_event("ctf-test", &meta, &bodies, &config(OutputType::Zola, None, &["sky"]));

    assert_eq!(out.challenges.len(), 1);
    assert_eq!(out.challenges[0].path, "ctf-test/example.md");
    assert_eq!(
        out.challenges[0].content,
        "+++
title=\"example\"
date = 2022-01-07

[taxonomies]
tags = [\"tag 1 lol\"]
+++


hi lol"
    );
    assert_eq!(out.index.path, "ctf-test/index.md");
    assert_eq!(
        out.index.content,
        "+++
title=\"test lol\"
date = 2022-01-07

[taxonomies]
tags = [\"ctf-writeups\"]
+++


# [example](/ctf-test/example)
hi lol"
    );

    let files = strings(&["meta.toml", "example.md", "example_asset"]);
    assert_eq!(classify_assets(&files), strings(&["example_asset"]));
    assert_eq!(asset_output_path("ctf-test", "example_asset"), "ctf-test/example_asset");
}

#[test]
fn scenario_single_challenge_page_and_index() {
    let meta = one_challenge("Test", "example", Some(&["tag1"]));
    let bodies = vec![Some("hi".to_string())];
    let out = process_event("Test", &meta, &bodies, &config(OutputType::Zola, None, &["sky"]));
    assert_eq!(
        out.challenges[0].content,
        "+++\ntitle=\"example\"\ndate = 2022-01-07\n\n[taxonomies]\ntags = [\"tag1\"]\n+++\n\n\nhi"
    );
    assert_eq!(
        out.index.content,
        "+++\ntitle=\"Test\"\ndate = 2022-01-07\n\n[taxonomies]\ntags = [\"ctf-writeups\"]\n+++\n\n\n# [example](/Test/example)\nhi"
    );
    assert!(out.skipped.is_empty());
}

#[test]
fn unreadable_challenges_are_dropped() {
    let mut meta = CTFMeta::new("Ev".to_string(), "2023-05-01".to_string(), None);
    for key in ["a", "b", "c"] {
        assert!(meta.add_challenge(
            key.to_string(),
            ChallengeMeta { name: key.to_uppercase(), tags: None },
        ));
    }
    let bodies = vec![Some("one".to_string()), None, Some("three".to_string())];
    let out = process_event("ev", &meta, &bodies, &config(OutputType::Zola, None, &[]));
    assert_eq!(out.challenges.len(), 2);
    assert_eq!(out.challenges[0].path, "ev/a.md");
    assert_eq!(out.challenges[1].path, "ev/c.md");
    assert_eq!(out.skipped, strings(&["b"]));
    assert!(out.index.content.ends_with("# [A](/ev/a)\none\n# [C](/ev/c)\nthree"));
    assert!(out.challenges[0].content.contains("tags = []"));
}

#[test]
fn no_readable_challenge_gives_bare_index() {
    let meta = one_challenge("Ev", "a", None);
    let out = process_event("ev", &meta, &vec![None], &config(OutputType::Zola, None, &[]));
    assert!(out.challenges.is_empty());
    assert_eq!(
        out.index.content,
        "+++\ntitle=\"Ev\"\ndate = 2022-01-07\n\n[taxonomies]\ntags = [\"ctf-writeups\"]\n+++\n\n\n"
    );
}

#[test]
fn description_is_followed_by_more_marker() {
    let mut meta = one_challenge("Ev", "a", None);
    meta.description = Some("About it".to_string());
    let out = process_event("ev", &meta, &vec![Some("x".to_string())], &config(OutputType::Zola, None, &[]));
    assert!(out.index.content.ends_with("+++\n\n\nAbout it\n<!-- more -->\n# [a](/ev/a)\nx"));
}

#[test]
fn index_demotes_headings_but_page_does_not() {
    let meta = one_challenge("Ev", "a", None);
    let body = "# Intro\ntext\n## Part\n#tag";
    let out = process_event("ev", &meta, &vec![Some(body.to_string())], &config(OutputType::Zola, None, &[]));
    assert!(out.challenges[0].content.ends_with(body));
    assert!(out.index.content.ends_with("# [a](/ev/a)\n## Intro\ntext\n### Part\n##tag"));
}

#[test]
fn prefix_is_applied_to_both_pages() {
    let meta = one_challenge("Ev", "a", None);
    let body = "see [it](/img/x.png) and [other](rel)";
    let out = process_event("ev", &meta, &vec![Some(body.to_string())], &config(OutputType::Zola, Some("pre/"), &[]));
    let expected = "see [it](/pre/img/x.png) and [other](rel)";
    assert!(out.challenges[0].content.ends_with(expected));
    assert!(out.index.content.ends_with(expected));
}

#[test]
fn index_link_uses_slug_of_key() {
    let meta = one_challenge("Ev", "My Challenge!", None);
    let out = process_event("ev", &meta, &vec![Some("b".to_string())], &config(OutputType::Zola, None, &[]));
    assert!(out.index.content.ends_with("# [My Challenge!](/ev/my-challenge)\nb"));
    assert_eq!(out.challenges[0].path, "ev/My Challenge!.md");
}

#[test]
fn hugo_pages_carry_authors() {
    let meta = one_challenge("Ev", "a", Some(&["x", "y"]));
    let out = process_event("ev", &meta, &vec![Some("b".to_string())], &config(OutputType::Hugo, None, &["sky", "moon"]));
    assert_eq!(
        out.challenges[0].content,
        "+++\ntitle=\"a\"\ndate = 2022-01-07\ntags = [\"x\",\"y\"]\nauthors = [\"sky\",\"moon\"]\nlayout = \"post\"\n+++\n\n\nb"
    );
    assert!(out.index.content.starts_with(
        "+++\ntitle=\"Ev\"\ndate = 2022-01-07\ntags = [\"ctf-writeups\"]\nauthors = [\"sky\",\"moon\"]\nlayout = \"post\"\n+++\n\n\n"
    ));
}

#[test]
fn index_entry_exact() {
    assert_eq!(
        index_entry("T", "ev", "slug-x", "# h\nbody"),
        "# [T](/ev/slug-x)\n## h\nbody"
    );
}

#[test]
fn page_path_exact() {
    assert_eq!(page_path("ev", "key"), "ev/key.md");
}

#[test]
fn duplicate_key_is_refused() {
    let mut meta = one_challenge("Ev", "a", None);
    assert!(!meta.add_challenge("a".to_string(), ChallengeMeta { name: "again".to_string(), tags: None }));
    assert_eq!(meta.challenges.len(), 1);
    assert_eq!(meta.challenges[0].1.name, "a");
}

#[test]
fn front_matter_zola_ignores_authors() {
    let r = make_front_matter("T", "2020-01-01", &strings(&["b", "a"]), &strings(&["sky"]), OutputType::Zola);
    assert_eq!(r, "+++\ntitle=\"T\"\ndate = 2020-01-01\n\n[taxonomies]\ntags = [\"b\",\"a\"]\n+++\n\n\n");
}

#[test]
fn front_matter_hugo_empty_lists() {
    let r = make_front_matter("T", "d", &Vec::new(), &Vec::new(), OutputType::Hugo);
    assert_eq!(r, "+++\ntitle=\"T\"\ndate = d\ntags = []\nauthors = []\nlayout = \"post\"\n+++\n\n\n");
}

#[test]
fn front_matter_does_not_escape_quotes() {
    let r = make_front_matter("a\"b", "d", &strings(&["q\"t"]), &Vec::new(), OutputType::Zola);
    assert!(r.contains("title=\"a\"b\""));
    assert!(r.contains("tags = [\"q\"t\"]"));
}

#[test]
fn front_matter_is_deterministic_and_ordered() {
    let tags = strings(&["z", "a", "m"]);
    let authors = strings(&["y", "b"]);
    let a = make_front_matter("T", "d", &tags, &authors, OutputType::Hugo);
    let b = make_front_matter("T", "d", &tags, &authors, OutputType::Hugo);
    assert_eq!(a, b);
    assert!(a.contains("tags = [\"z\",\"a\",\"m\"]"));
    assert!(a.contains("authors = [\"y\",\"b\"]"));
}

#[test]
fn output_type_names() {
    assert_eq!(OutputType::from_name("zola"), Ok(OutputType::Zola));
    assert_eq!(OutputType::from_name("hugo"), Ok(OutputType::Hugo));
    assert_eq!(OutputType::from_name("Zola"), Err("type should be \"zola\" or \"hugo\""));
    assert_eq!("hugo".parse::<OutputType>(), Ok(OutputType::Hugo));
    assert!("".parse::<OutputType>().is_err());
}

#[test]
fn scenario_only_diagram_is_asset() {
    let files = strings(&["diagram.png", "meta.toml", "example.md"]);
    assert_eq!(classify_assets(&files), strings(&["diagram.png"]));
    assert_eq!(asset_output_path("ev", "diagram.png"), "ev/diagram.png");
}

#[test]
fn nested_descriptor_name_is_an_asset() {
    let files = strings(&["meta.toml", "sub/meta.toml", "sub/notes.md", "sub/data.bin"]);
    assert_eq!(classify_assets(&files), strings(&["sub/meta.toml", "sub/data.bin"]));
}

#[test]
fn asset_classification_edges() {
    assert!(is_asset("notes"));
    assert!(is_asset(".md"));
    assert!(is_asset("a.md.bak"));
    assert!(is_asset("a.MD"));
    assert!(is_asset("sub/img.png"));
    assert!(is_asset("md/file"));
    assert!(is_asset("meta.toml.bak"));
    assert!(is_asset("sub/meta.toml"));
    assert!(!is_asset("meta.toml"));
    assert!(!is_asset("sub/x.md"));
    assert!(!is_asset("..md"));
    assert_eq!(asset_output_path("ev", "sub/dir/a.bin"), "ev/sub/dir/a.bin");
}
