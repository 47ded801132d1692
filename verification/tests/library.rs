use docs_to_pdf::docusaurus::collect_chapters;
use docs_to_pdf::docusaurus::get_chapter_position;
use docs_to_pdf::docusaurus::is_category;
use docs_to_pdf::docusaurus::Chapter;
use docs_to_pdf::docusaurus::MenuItem;
use docs_to_pdf::docusaurus::MenuLink;
use docs_to_pdf::docusaurus::StructureError;
use docs_to_pdf::pdf::plan_exports;
use docs_to_pdf::util::get_base_url;
use docs_to_pdf::util::make_base_url;
use docs_to_pdf::util::ParseError;

fn leaf(title: &str, href: &str) -> MenuItem {
    MenuItem {
        link: Some(MenuLink {
            href: Some(href.to_string()),
            text: Some(title.to_string()),
        }),
        css_classes: Some("menu__list-item".to_string()),
        children: Vec::new(),
    }
}

fn category(title: &str, href: &str, children: Vec<MenuItem>) -> MenuItem {
    MenuItem {
        link: Some(MenuLink {
            href: Some(href.to_string()),
            text: Some(title.to_string()),
        }),
        css_classes: Some("menu__list-item theme-doc-sidebar-item-category".to_string()),
        children,
    }
}

fn chapter(title: &str, link: &str, position: &str) -> Chapter {
    Chapter {
        title: title.to_string(),
        relative_link: link.to_string(),
        position: position.to_string(),
    }
}

#[test]
fn test_get_base_url() {
    assert_eq!(
        get_base_url("https://example.com/").unwrap(),
        "https://example.com"
    );
}

#[test]
fn test_get_base_url_with_path() {
    assert_eq!(
        get_base_url("https://example.com/path/to/page").unwrap(),
        "https://example.com"
    );
}

#[test]
fn test_get_base_url_with_query_string() {
    assert_eq!(
        get_base_url("https://example.com/path/to/page?query=1").unwrap(),
        "https://example.com"
    );
}

#[test]
fn test_get_base_url_rejects_invalid_input() {
    assert_eq!(get_base_url("incorrect-url"), Err(ParseError::Invalid));
}

#[test]
fn test_get_base_url_rejects_url_without_host() {
    assert_eq!(
        get_base_url("mailto:someone@example.com"),
        Err(ParseError::NoHost)
    );
}

#[test]
fn test_make_base_url_joins_scheme_and_host() {
    assert_eq!(make_base_url("https", "example.com"), "https://example.com");
}

#[test]
fn test_get_chapter_position_top_level() {
    assert_eq!(get_chapter_position(0, &None), "1");
    assert_eq!(get_chapter_position(10, &None), "11");
}

#[test]
fn test_get_chapter_position_nested() {
    assert_eq!(get_chapter_position(2, &Some("1.2".to_string())), "1.2.3");
}

#[test]
fn test_category_detection() {
    assert!(is_category(&Some(
        "menu__list-item theme-doc-sidebar-item-category".to_string()
    )));
    assert!(!is_category(&Some("menu__list-item".to_string())));
    assert!(!is_category(&None));
}

#[test]
fn test_position_assignment_depth_three_branching_two() {
    let items = vec![
        category(
            "A",
            "/a",
            vec![
                category("A1", "/a1", vec![leaf("A1a", "/a1a"), leaf("A1b", "/a1b")]),
                category("A2", "/a2", vec![leaf("A2a", "/a2a"), leaf("A2b", "/a2b")]),
            ],
        ),
        category(
            "B",
            "/b",
            vec![
                category("B1", "/b1", vec![leaf("B1a", "/b1a"), leaf("B1b", "/b1b")]),
                category("B2", "/b2", vec![leaf("B2a", "/b2a"), leaf("B2b", "/b2b")]),
            ],
        ),
    ];
    let chapters = collect_chapters(&items, None).unwrap();
    let positions: Vec<&str> = chapters.iter().map(|c| c.position.as_str()).collect();
    assert_eq!(
        positions,
        vec![
            "1", "1.1", "1.1.1", "1.1.2", "1.2", "1.2.1", "1.2.2", "2", "2.1", "2.1.1", "2.1.2",
            "2.2", "2.2.1", "2.2.2"
        ]
    );
}

#[test]
fn test_collected_chapters_hold_title_and_link() {
    let items = vec![leaf("Intro", "/docs/intro"), leaf("Setup", "/docs/setup")];
    let chapters = collect_chapters(&items, None).unwrap();
    assert_eq!(chapters.len(), 2);
    assert_eq!(chapters[0].title, "Intro");
    assert_eq!(chapters[0].relative_link, "/docs/intro");
    assert_eq!(chapters[0].position, "1");
    assert_eq!(chapters[1].href(), "/docs/setup");
    assert_eq!(chapters[1].label(), "Setup");
}

#[test]
fn test_collect_reports_missing_link() {
    let items = vec![MenuItem {
        link: None,
        css_classes: Some("menu__list-item".to_string()),
        children: Vec::new(),
    }];
    assert_eq!(collect_chapters(&items, None).unwrap_err(), StructureError::MissingLink);
}

#[test]
fn test_collect_reports_missing_href() {
    let items = vec![MenuItem {
        link: Some(MenuLink {
            href: None,
            text: Some("Intro".to_string()),
        }),
        css_classes: Some("menu__list-item".to_string()),
        children: Vec::new(),
    }];
    assert_eq!(collect_chapters(&items, None).unwrap_err(), StructureError::MissingHref);
}

#[test]
fn test_collect_reports_missing_label() {
    let items = vec![MenuItem {
        link: Some(MenuLink {
            href: Some("/docs/intro".to_string()),
            text: None,
        }),
        css_classes: Some("menu__list-item".to_string()),
        children: Vec::new(),
    }];
    assert_eq!(collect_chapters(&items, None).unwrap_err(), StructureError::MissingLabel);
}

#[test]
fn test_collect_on_empty_menu() {
    let items: Vec<MenuItem> = Vec::new();
    assert_eq!(collect_chapters(&items, None).unwrap().len(), 0);
}

#[test]
fn test_non_navigable_chapter_is_skipped() {
    let items = vec![category(
        "Guides",
        "#",
        vec![leaf("First", "/guides/first"), leaf("Second", "/guides/second")],
    )];
    let chapters = collect_chapters(&items, None).unwrap();
    assert_eq!(chapters.len(), 3);
    let jobs = plan_exports(&chapters, "https://example.com", "pdfs");
    assert_eq!(jobs.len(), 2);
    assert_eq!(jobs[0].url, "https://example.com/guides/first");
    assert_eq!(jobs[0].dest_file, "pdfs/1.1 - First.pdf");
    assert_eq!(jobs[1].url, "https://example.com/guides/second");
    assert_eq!(jobs[1].dest_file, "pdfs/1.2 - Second.pdf");
    assert!(jobs.iter().all(|j| !j.url.ends_with('#')));
}

#[test]
fn test_dest_file_format() {
    let chapters = vec![chapter("Getting Started", "/docs/start", "2.3")];
    let jobs = plan_exports(&chapters, "https://example.com", "out");
    assert_eq!(jobs.len(), 1);
    assert_eq!(jobs[0].dest_file, "out/2.3 - Getting Started.pdf");
    assert_eq!(jobs[0].url, "https://example.com/docs/start");
}

#[test]
fn test_plan_holds_one_job_per_exportable_chapter() {
    let chapters = vec![
        chapter("Heading", "#", "1"),
        chapter("One", "/one", "1.1"),
        chapter("Two", "/two", "1.2"),
        chapter("Other heading", "#", "2"),
        chapter("Three", "/three", "2.1"),
    ];
    let jobs = plan_exports(&chapters, "https://example.com", "pdfs");
    assert_eq!(jobs.len(), 3);
}

#[test]
fn test_replanning_yields_identical_jobs() {
    let chapters = vec![
        chapter("Heading", "#", "1"),
        chapter("One", "/one", "1.1"),
        chapter("Two", "/two", "1.2"),
    ];
    let first = plan_exports(&chapters, "https://example.com", "pdfs");
    let second = plan_exports(&chapters, "https://example.com", "pdfs");
    assert_eq!(first.len(), second.len());
    for (a, b) in first.iter().zip(second.iter()) {
        assert_eq!(a.url, b.url);
        assert_eq!(a.dest_file, b.dest_file);
    }
}

#[test]
fn test_all_destination_files_distinct() {
    let items = vec![
        category(
            "A",
            "/a",
            vec![
                category("A1", "/a1", vec![leaf("A1a", "/a1a"), leaf("A1b", "/a1b")]),
                leaf("A2", "/a2"),
            ],
        ),
        leaf("B", "/b"),
    ];
    let chapters = collect_chapters(&items, None).unwrap();
    let jobs = plan_exports(&chapters, "https://example.com", "pdfs");
    assert_eq!(jobs.len(), 6);
    for m in 0..jobs.len() {
        for n in 0..jobs.len() {
            if m != n {
                assert_ne!(jobs[m].dest_file, jobs[n].dest_file);
            }
        }
    }
}
