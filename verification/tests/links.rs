use site_links::{
    combine_anchor, extract_anchor, get_permalink_key_from_link, is_link_internal_page,
    link_has_protocol_or_zola, resolve_internal_link, resolve_link_key, LinkNotFound,
    PermalinkTable, ResolvedInternalLink,
};

fn table(entries: &[(&str, &str)]) -> PermalinkTable {
    let mut permalinks = PermalinkTable::new();
    for (path, permalink) in entries {
        permalinks.insert(path.to_string(), permalink.to_string());
    }
    permalinks
}

#[test]
fn can_resolve_valid_internal_link() {
    let mut permalinks = PermalinkTable::new();
    permalinks.insert("pages/about.md".to_string(), "https://vincent.is/about".to_string());
    let res = resolve_internal_link("@/pages/about.md", &permalinks).unwrap();
    assert_eq!(res.permalink, "https://vincent.is/about");
}

#[test]
fn can_resolve_valid_root_internal_link() {
    let mut permalinks = PermalinkTable::new();
    permalinks.insert("about.md".to_string(), "https://vincent.is/about".to_string());
    let res = resolve_internal_link("@/about.md", &permalinks).unwrap();
    assert_eq!(res.permalink, "https://vincent.is/about");
}

#[test]
fn can_resolve_internal_links_with_anchors() {
    let mut permalinks = PermalinkTable::new();
    permalinks.insert("pages/about.md".to_string(), "https://vincent.is/about".to_string());
    let res = resolve_internal_link("@/pages/about.md#hello", &permalinks).unwrap();
    assert_eq!(res.permalink, "https://vincent.is/about#hello");
    assert_eq!(res.md_path, "pages/about.md".to_string());
    assert_eq!(res.anchor, Some("hello".to_string()));
}

#[test]
fn can_resolve_escaped_internal_links() {
    let mut permalinks = PermalinkTable::new();
    permalinks.insert(
        "pages/about space.md".to_string(),
        "https://vincent.is/about%20space/".to_string(),
    );
    let res = resolve_internal_link("@/pages/about%20space.md#hello", &permalinks).unwrap();
    assert_eq!(res.permalink, "https://vincent.is/about%20space/#hello");
    assert_eq!(res.md_path, "pages/about space.md".to_string());
    assert_eq!(res.anchor, Some("hello".to_string()));
}

#[test]
fn errors_resolve_inexistant_internal_link() {
    let res = resolve_internal_link("@/pages/about.md#hello", &PermalinkTable::new());
    assert!(res.is_err());
}

#[test]
fn test_get_permalink_key_from_link() {
    assert_eq!(get_permalink_key_from_link("@/some/path"), ("some/path".to_string(), None));
    assert_eq!(
        get_permalink_key_from_link("@/some/path#anchor"),
        ("some/path".to_string(), Some("anchor"))
    );
    assert_eq!(get_permalink_key_from_link("some/path"), ("some/path".to_string(), None));
    assert_eq!(
        get_permalink_key_from_link("/some/path#anchor"),
        ("/some/path".to_string(), Some("anchor"))
    );
}

#[test]
fn test_is_link_internal_page() {
    let mut permalinks = PermalinkTable::new();
    permalinks.insert("some/path".to_string(), "some/path".to_string());

    assert!(is_link_internal_page("@/some/path", &permalinks));
    assert!(!is_link_internal_page("@/other/path", &permalinks));
}

#[test]
fn test_extract_anchor() {
    assert_eq!(extract_anchor("some/path#anchor"), ("some/path", Some("anchor")));
    assert_eq!(extract_anchor("some/path"), ("some/path", None));
}

#[test]
fn resolved_link_without_anchor_is_the_bare_permalink() {
    let permalinks = table(&[("pages/about.md", "https://x/about")]);
    let res = resolve_internal_link("@/pages/about.md", &permalinks).unwrap();
    assert_eq!(
        res,
        ResolvedInternalLink {
            permalink: "https://x/about".to_string(),
            md_path: "pages/about.md".to_string(),
            anchor: None,
        }
    );
}

#[test]
fn resolved_link_with_anchor_ends_with_it() {
    let permalinks = table(&[("pages/about.md", "https://x/about")]);
    let res = resolve_internal_link("@/pages/about.md#hello", &permalinks).unwrap();
    assert!(res.permalink.ends_with("#hello"));
    assert_eq!(res.permalink, "https://x/about#hello");
    assert_eq!(res.anchor, Some("hello".to_string()));
}

#[test]
fn resolved_link_keeps_an_empty_anchor() {
    let permalinks = table(&[("pages/about.md", "https://x/about/")]);
    let res = resolve_internal_link("@/pages/about.md#", &permalinks).unwrap();
    assert_eq!(res.permalink, "https://x/about/#");
    assert_eq!(res.md_path, "pages/about.md");
    assert_eq!(res.anchor, Some(String::new()));
}

#[test]
fn resolves_without_the_reserved_prefix() {
    let permalinks = table(&[("pages/about.md", "https://x/about")]);
    let res = resolve_internal_link("pages/about.md#top", &permalinks).unwrap();
    assert_eq!(res.permalink, "https://x/about#top");
    assert_eq!(res.md_path, "pages/about.md");
}

#[test]
fn escaped_key_is_decoded_before_lookup() {
    let permalinks = table(&[("pages/about space.md", "https://x/about-space/")]);
    assert!(is_link_internal_page("@/pages/about%20space.md", &permalinks));
    assert!(!is_link_internal_page("@/pages/about space.md#a", &table(&[])));
    let res = resolve_internal_link("@/pages/about%20space.md", &permalinks).unwrap();
    assert_eq!(res.md_path, "pages/about space.md");
    assert_eq!(res.permalink, "https://x/about-space/");
    assert_eq!(res.anchor, None);
}

#[test]
fn stored_keys_are_not_decoded() {
    let permalinks = table(&[("pages/about%20space.md", "https://x/a")]);
    assert!(!is_link_internal_page("@/pages/about%20space.md", &permalinks));
    assert!(resolve_internal_link("@/pages/about%20space.md", &permalinks).is_err());
}

#[test]
fn empty_table_resolves_nothing() {
    let permalinks = PermalinkTable::new();
    for link in ["@/pages/about.md", "pages/about.md", "@/", "#", "@/a%20b.md#c", "x"] {
        let res = resolve_internal_link(link, &permalinks);
        assert_eq!(res, Err(LinkNotFound { link: link.to_string() }));
        assert!(!is_link_internal_page(link, &permalinks));
    }
}

#[test]
fn failure_carries_the_link_as_written() {
    let permalinks = table(&[("pages/about.md", "https://x/about")]);
    let err = resolve_internal_link("@/pages/a%20bout.md#hello", &permalinks).unwrap_err();
    assert_eq!(err.link, "@/pages/a%20bout.md#hello");
    assert_eq!(err.message(), "Relative link @/pages/a%20bout.md#hello not found.");
}

#[test]
fn lookup_is_exact_and_case_sensitive() {
    let permalinks = table(&[("pages/about.md", "https://x/about")]);
    assert!(!is_link_internal_page("@/pages/About.md", &permalinks));
    assert!(!is_link_internal_page("@/pages/about.md/", &permalinks));
    assert!(!is_link_internal_page("@//pages/about.md", &permalinks));
    assert!(!is_link_internal_page("@/@/pages/about.md", &permalinks));
    assert!(is_link_internal_page("@/pages/about.md#nowhere", &permalinks));
}

#[test]
fn resolve_link_key_looks_up_the_given_key() {
    let permalinks = table(&[("a b.md", "https://x/ab/")]);
    let found = resolve_link_key("@/a%20b.md#s", "a b.md".to_string(), Some("s"), &permalinks);
    assert_eq!(
        found,
        Ok(ResolvedInternalLink {
            permalink: "https://x/ab/#s".to_string(),
            md_path: "a b.md".to_string(),
            anchor: Some("s".to_string()),
        })
    );
    let bare = resolve_link_key("a b.md", "a b.md".to_string(), None, &permalinks);
    assert_eq!(bare.unwrap().permalink, "https://x/ab/");
    let missing = resolve_link_key("@/c.md", "c.md".to_string(), None, &permalinks);
    assert_eq!(missing, Err(LinkNotFound { link: "@/c.md".to_string() }));
}

#[test]
fn permalink_key_decodes_percent_escapes() {
    assert_eq!(get_permalink_key_from_link("@/a%20b"), ("a b".to_string(), None));
    assert_eq!(get_permalink_key_from_link("a%2Fb%2fc"), ("a/b/c".to_string(), None));
    assert_eq!(get_permalink_key_from_link("@/caf%C3%A9.md#x"), ("café.md".to_string(), Some("x")));
    assert_eq!(get_permalink_key_from_link("@/%F0%9F%92%96"), ("💖".to_string(), None));
}

#[test]
fn permalink_key_keeps_what_is_no_escape() {
    assert_eq!(get_permalink_key_from_link("@/100%"), ("100%".to_string(), None));
    assert_eq!(get_permalink_key_from_link("@/a%2"), ("a%2".to_string(), None));
    assert_eq!(get_permalink_key_from_link("@/a%zzb"), ("a%zzb".to_string(), None));
    assert_eq!(get_permalink_key_from_link("@/a%%41"), ("a%A".to_string(), None));
}

#[test]
fn permalink_key_replaces_ill_formed_bytes() {
    assert_eq!(get_permalink_key_from_link("@/a%FFb"), ("a\u{FFFD}b".to_string(), None));
    assert_eq!(
        get_permalink_key_from_link("%00%9F%92%96"),
        ("\u{0}\u{FFFD}\u{FFFD}\u{FFFD}".to_string(), None)
    );
}

#[test]
fn permalink_key_does_not_decode_the_anchor() {
    assert_eq!(get_permalink_key_from_link("@/a%20b#c%20d"), ("a b".to_string(), Some("c%20d")));
    assert_eq!(get_permalink_key_from_link("@/a%23b"), ("a#b".to_string(), None));
}

#[test]
fn permalink_key_strips_the_prefix_once_and_only_in_front() {
    assert_eq!(get_permalink_key_from_link("@/@/a"), ("@/a".to_string(), None));
    assert_eq!(get_permalink_key_from_link("a/@/b"), ("a/@/b".to_string(), None));
    assert_eq!(get_permalink_key_from_link("@"), ("@".to_string(), None));
    assert_eq!(get_permalink_key_from_link("@/"), (String::new(), None));
    assert_eq!(get_permalink_key_from_link(""), (String::new(), None));
    assert_eq!(get_permalink_key_from_link("@/#top"), (String::new(), Some("top")));
}

#[test]
fn permalink_key_of_text_beyond_ascii() {
    assert_eq!(
        get_permalink_key_from_link("@/büro/straße.md#größe"),
        ("büro/straße.md".to_string(), Some("größe"))
    );
}

#[test]
fn extract_anchor_splits_at_the_first_hash_only() {
    assert_eq!(extract_anchor("a#b#c"), ("a", Some("b#c")));
    assert_eq!(extract_anchor("#a"), ("", Some("a")));
    assert_eq!(extract_anchor("a#"), ("a", Some("")));
    assert_eq!(extract_anchor("#"), ("", Some("")));
    assert_eq!(extract_anchor(""), ("", None));
    assert_eq!(extract_anchor("@/some/path#anchor"), ("@/some/path", Some("anchor")));
    assert_eq!(extract_anchor("日本語#節"), ("日本語", Some("節")));
}

#[test]
fn combine_anchor_joins_with_a_hash() {
    assert_eq!(combine_anchor("https://x/a", Some("top")), "https://x/a#top");
    assert_eq!(combine_anchor("https://x/a", Some("")), "https://x/a#");
    assert_eq!(combine_anchor("https://x/a", None), "https://x/a");
    assert_eq!(combine_anchor("", Some("t")), "#t");
    assert_eq!(combine_anchor("", None), "");
}

#[test]
fn combine_then_extract_gives_the_parts_back() {
    for (link, anchor) in [("some/path", "anchor"), ("", "a"), ("@/x.md", "a#b"), ("é", "ü")] {
        let combined = combine_anchor(link, Some(anchor));
        assert_eq!(extract_anchor(&combined), (link, Some(anchor)));
    }
}

#[test]
fn extract_then_combine_gives_the_link_back() {
    for link in ["some/path#anchor", "some/path", "a#b#c", "#", "", "a#"] {
        let (base, anchor) = extract_anchor(link);
        assert_eq!(combine_anchor(base, anchor), link);
    }
}

#[test]
fn recognizes_each_prefix() {
    assert!(link_has_protocol_or_zola("http://example.com"));
    assert!(link_has_protocol_or_zola("https://example.com/a#b"));
    assert!(link_has_protocol_or_zola("mailto:someone@example.com"));
    assert!(link_has_protocol_or_zola("ftp://example.com/file"));
    assert!(link_has_protocol_or_zola("file:///tmp/x"));
    assert!(link_has_protocol_or_zola("@/pages/about.md"));
    assert!(link_has_protocol_or_zola("@/"));
    assert!(link_has_protocol_or_zola("mailto:"));
}

#[test]
fn recognizes_nothing_else() {
    assert!(!link_has_protocol_or_zola(""));
    assert!(!link_has_protocol_or_zola("pages/about.md"));
    assert!(!link_has_protocol_or_zola("/pages/about.md"));
    assert!(!link_has_protocol_or_zola("HTTP://example.com"));
    assert!(!link_has_protocol_or_zola("Https://example.com"));
    assert!(!link_has_protocol_or_zola(" http://example.com"));
    assert!(!link_has_protocol_or_zola("http:/example.com"));
    assert!(!link_has_protocol_or_zola("http:"));
    assert!(!link_has_protocol_or_zola("@"));
    assert!(!link_has_protocol_or_zola("a/@/b"));
    assert!(!link_has_protocol_or_zola("ssh://example.com"));
    assert!(!link_has_protocol_or_zola("#http://"));
}

#[test]
fn table_holds_one_entry_per_path() {
    let mut permalinks = PermalinkTable::new();
    assert!(!permalinks.contains_key("a.md"));
    assert_eq!(permalinks.get("a.md"), None);
    permalinks.insert("a.md".to_string(), "https://x/1".to_string());
    permalinks.insert("b.md".to_string(), "https://x/2".to_string());
    permalinks.insert("a.md".to_string(), "https://x/3".to_string());
    assert!(permalinks.contains_key("a.md"));
    assert_eq!(permalinks.get("a.md"), Some(&"https://x/3".to_string()));
    assert_eq!(permalinks.get("b.md"), Some(&"https://x/2".to_string()));
    assert_eq!(permalinks.get("A.md"), None);
    assert_eq!(resolve_internal_link("@/a.md", &permalinks).unwrap().permalink, "https://x/3");
}
