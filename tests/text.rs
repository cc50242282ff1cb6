use ctf_writeups::headings::demote_headings;
use ctf_writeups::links::rewrite_links;

#[test]
fn scenario_prefix_rewrites_rooted_link() {
    assert_eq!(rewrite_links("[label](/target)", Some("pre/")), "[label](/pre/target)");
    assert_eq!(rewrite_links("[label](target)", Some("pre/")), "[label](target)");
}

#[test]
fn no_prefix_is_identity() {
    let t = "[a](/b) [c](/d)\n# x";
    assert_eq!(rewrite_links(t, None), t);
}

#[test]
fn several_links_on_lines() {
    assert_eq!(
        rewrite_links("x [a](/b) y [c](http://e) [d](/f)\n[g](/h)", Some("p/")),
        "x [a](/p/b) y [c](http://e) [d](/p/f)\n[g](/p/h)"
    );
}

#[test]
fn link_does_not_span_lines() {
    assert_eq!(rewrite_links("[a](/b\n)", Some("p/")), "[a](/b\n)");
    assert_eq!(rewrite_links("[a\n](/b)", Some("p/")), "[a\n](/b)");
}

#[test]
fn label_runs_to_first_rooted_marker() {
    assert_eq!(rewrite_links("[a](b) [c](/d)", Some("p/")), "[a](b) [c](/p/d)");
    assert_eq!(rewrite_links("[](/)", Some("p/")), "[](/p/)");
}

#[test]
fn code_spans_are_not_special() {
    assert_eq!(rewrite_links("`[a](/b)`", Some("p/")), "`[a](/p/b)`");
}

#[test]
fn empty_prefix_and_empty_text() {
    assert_eq!(rewrite_links("[a](/b)", Some("")), "[a](/b)");
    assert_eq!(rewrite_links("", Some("p/")), "");
}

#[test]
fn non_ascii_text_is_kept() {
    assert_eq!(rewrite_links("é [ü](/ß) ✓", Some("p/")), "é [ü](/p/ß) ✓");
}

#[test]
fn demotion_adds_one_level_per_heading_line() {
    assert_eq!(demote_headings("# a\n## b\ntext #no\n#c"), "## a\n### b\ntext #no\n##c");
    assert_eq!(demote_headings(""), "");
    assert_eq!(demote_headings("plain"), "plain");
    assert_eq!(demote_headings("\n#"), "\n##");
}
