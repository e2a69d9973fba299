use std::sync::Arc;

use dirble::request::{
    classify_response, ensure_trailing_slash, fabricate_request_response, finding_action,
    generate_end, is_listable_content, scrape_recursion_allowed, transport_failure_response,
    Collector, FindingAction, RequestResponse,
};
use dirble::scheduler::{add_dir_to_scan_queue, host_depth, GlobalOpts, SchedulerState};
use dirble::validator::{calibrate, end_directory_info, DirectoryInfo, ScanOpts};
use dirble::wordlist::{apply_extension, normalize_wordlist, UriGenerator};

fn opts(max_threads: u32, wordlist_split: u32, hosts: Vec<&str>) -> GlobalOpts {
    GlobalOpts {
        hostnames: hosts.into_iter().map(|h| h.to_string()).collect(),
        prefixes: vec![String::new()],
        extensions: vec![String::new()],
        extension_substitution: false,
        max_threads,
        wordlist_split,
        scan_opts: ScanOpts { scan_401: false, scan_403: false },
        max_recursion_depth: None,
        scrape_listable: false,
    }
}

fn plain_dir(url: &str) -> DirectoryInfo {
    DirectoryInfo {
        url: url.to_string(),
        parent_index: 0,
        parent_depth: 1,
        validator: None,
    }
}

#[test]
fn wordlist_normalization() {
    // Sorted, deduplicated, edge slashes stripped.
    let words = vec![
        "b".to_string(),
        "/a/".to_string(),
        "a".to_string(),
        "b/".to_string(),
        "c".to_string(),
    ];
    let normalized = normalize_wordlist(&words);
    assert_eq!(normalized, vec!["a".to_string(), "b".to_string(), "c".to_string()]);

    // Only one slash is removed from each edge.
    let doubled = vec!["//a".to_string(), "//".to_string()];
    let normalized = normalize_wordlist(&doubled);
    assert_eq!(normalized, vec!["".to_string(), "/a".to_string()]);
}

#[test]
fn extension_substitution() {
    // A word holding a dot is cut at the last dot before the extension
    // is appended; a word without one gets the extension appended; an
    // empty extension passes the word through.
    assert_eq!(apply_extension("index.html", ".php", true), "index.php");
    assert_eq!(apply_extension("a.b.c", ".txt", true), "a.b.txt");
    assert_eq!(apply_extension("admin", ".php", true), "admin.php");
    assert_eq!(apply_extension("index.html", ".php", false), "index.html.php");
    assert_eq!(apply_extension("index.html", "", true), "index.html");
    assert_eq!(apply_extension("index.html", "", false), "index.html");
}

#[test]
fn generator_shards_partition_wordlist() {
    // With two shards, every word is yielded by exactly one shard, in
    // stride order.
    let wordlist = Arc::new(vec![
        "a".to_string(),
        "b".to_string(),
        "c".to_string(),
        "d".to_string(),
        "e".to_string(),
    ]);
    let mut shard0 = UriGenerator::new(
        "http://x/".to_string(),
        String::new(),
        String::new(),
        wordlist.clone(),
        0,
        2,
        0,
        1,
        None,
        false,
    );
    let mut shard1 = UriGenerator::new(
        "http://x/".to_string(),
        String::new(),
        String::new(),
        wordlist.clone(),
        1,
        2,
        0,
        1,
        None,
        false,
    );
    let mut yielded0 = Vec::new();
    while let Some(u) = shard0.next() {
        yielded0.push(u);
    }
    let mut yielded1 = Vec::new();
    while let Some(u) = shard1.next() {
        yielded1.push(u);
    }
    assert_eq!(yielded0, vec!["http://x/a", "http://x/c", "http://x/e"]);
    assert_eq!(yielded1, vec!["http://x/b", "http://x/d"]);
}

#[test]
fn generator_applies_prefix_and_extension() {
    let wordlist = Arc::new(vec!["admin.php".to_string()]);
    let mut gen = UriGenerator::new(
        "http://x/".to_string(),
        ".".to_string(),
        ".bak".to_string(),
        wordlist,
        0,
        1,
        0,
        1,
        None,
        true,
    );
    assert_eq!(gen.next(), Some("http://x/.admin.bak".to_string()));
    assert_eq!(gen.next(), None);
}

#[test]
fn empty_wordlist_run_terminates() {
    // Single host, empty wordlist, default prefixes and extensions:
    // one generator is enqueued, it yields nothing, and once the
    // worker's end sentinel is processed the run is over.
    let opts = opts(1, 1, vec!["http://x/"]);
    let wordlist: Arc<Vec<String>> = Arc::new(Vec::new());
    let mut state = SchedulerState::new();
    let skipped = state.process_dir_info(&plain_dir("http://x/"), &opts, &wordlist, true);
    assert!(!skipped);
    assert_eq!(state.scan_queue.len(), 1);
    assert!(!state.scan_finished());

    let mut gen = state.dispatch();
    assert_eq!(gen.next(), None);
    assert!(!state.scan_finished());

    let skipped = state.process_dir_info(&end_directory_info(), &opts, &wordlist, false);
    assert!(!skipped);
    assert!(state.scan_finished());
}

#[test]
fn shard_boost_on_first_run() {
    // max_threads 4, configured split 1, one host: 1 * 1 < 4 - 2, so
    // the first-run split becomes (4 - 2) / 1 = 2 generators striping
    // the wordlist.
    let opts = opts(4, 1, vec!["http://x/"]);
    let wordlist = Arc::new(vec!["a".to_string(), "b".to_string()]);
    let mut queue = std::collections::VecDeque::new();
    add_dir_to_scan_queue(&mut queue, &opts, &plain_dir("http://x/"), &wordlist, true);
    assert_eq!(queue.len(), 2);

    let mut first = queue.pop_front().unwrap();
    let mut second = queue.pop_front().unwrap();
    assert_eq!(first.next(), Some("http://x/a".to_string()));
    assert_eq!(first.next(), None);
    assert_eq!(second.next(), Some("http://x/b".to_string()));
    assert_eq!(second.next(), None);

    // After the bootstrap the configured split is used verbatim.
    let mut queue = std::collections::VecDeque::new();
    add_dir_to_scan_queue(&mut queue, &opts, &plain_dir("http://x/"), &wordlist, false);
    assert_eq!(queue.len(), 1);
}

#[test]
fn queue_block_ordering() {
    // The block enqueued for one directory walks prefixes, then
    // extensions, then shards, in that nesting order.
    let mut o = opts(1, 2, vec!["http://x/"]);
    o.prefixes = vec![".".to_string(), String::new()];
    o.extensions = vec![String::new(), ".php".to_string()];
    let wordlist = Arc::new(vec!["a".to_string()]);
    let mut queue = std::collections::VecDeque::new();
    add_dir_to_scan_queue(&mut queue, &o, &plain_dir("http://x/"), &wordlist, false);
    assert_eq!(queue.len(), 8);

    let expected = [
        (".", "", 0),
        (".", "", 1),
        (".", ".php", 0),
        (".", ".php", 1),
        ("", "", 0),
        ("", "", 1),
        ("", ".php", 0),
        ("", ".php", 1),
    ];
    for (prefix, extension, shard) in expected {
        let gen = queue.pop_front().unwrap();
        assert_eq!(gen.prefix, prefix);
        assert_eq!(gen.extension, extension);
        assert_eq!(gen.shard, shard);
        assert_eq!(gen.step, 2);
        assert_eq!(gen.base, "http://x/");
        assert_eq!(gen.parent_depth, 1);
    }
}

#[test]
fn redirect_confirms_directory() {
    // A 301 whose location is the url plus a trailing slash confirms a
    // directory and records the decoded destination.
    let url = "http://x/admin".to_string();
    let dest = Some("http://x/admin/".to_string());
    let r = classify_response(&url, 301, &dest, 0);
    assert_eq!(r.code, 301);
    assert!(r.is_directory);
    assert_eq!(r.redirect_url, "http://x/admin/");

    // Percent-encoded locations are decoded before the comparison.
    let url = "http://x/a b".to_string();
    let dest = Some("http://x/a%20b/".to_string());
    let r = classify_response(&url, 302, &dest, 0);
    assert!(r.is_directory);
    assert_eq!(r.redirect_url, "http://x/a b/");

    // A redirect elsewhere is not a directory.
    let url = "http://x/admin".to_string();
    let dest = Some("http://x/login".to_string());
    let r = classify_response(&url, 301, &dest, 0);
    assert!(!r.is_directory);
    assert_eq!(r.redirect_url, "http://x/login");

    // A plain response keeps no redirect.
    let r = classify_response(&"http://x/f".to_string(), 200, &None, 7);
    assert!(!r.is_directory);
    assert_eq!(r.redirect_url, "");
    assert_eq!(r.content_len, 7);
}

#[test]
fn listable_markers() {
    // The markers are matched on the lowercased body.
    assert!(is_listable_content("<html>Parent Directory</html>"));
    assert!(is_listable_content("<html>UP TO higher level</html>"));
    assert!(is_listable_content("Directory Listing For /pub/"));
    assert!(!is_listable_content("<html>nothing to see</html>"));
}

#[test]
fn scraped_entries_are_fabricated() {
    let r = fabricate_request_response("http://x/pub/file.txt".to_string(), false, false);
    assert_eq!(r.code, 0);
    assert!(r.found_from_listable);
    assert!(!r.is_directory);
    assert_eq!(r.content_len, 0);
}

#[test]
fn calibration_unreliable_blocks_descent() {
    // A host answering 200 with wildly varying sizes for improbable
    // paths yields an unreliable profile: nothing is suppressed and
    // the directory is not descended into.
    let probes = vec![(200u32, 100usize), (200, 350)];
    let profile = calibrate(&probes);
    assert!(!profile.reliable);
    assert!(!profile.scan_folder(&ScanOpts { scan_401: true, scan_403: true }));
    assert_eq!(profile.print_alert(), " (calibration inconsistent)");
    assert!(!profile.matches_signature(200, 100));

    let opts = opts(4, 1, vec!["http://x/"]);
    let wordlist = Arc::new(vec!["a".to_string()]);
    let mut state = SchedulerState::new();
    let dir = DirectoryInfo {
        url: "http://x/".to_string(),
        parent_index: 0,
        parent_depth: 1,
        validator: Some(profile),
    };
    let skipped = state.process_dir_info(&dir, &opts, &wordlist, true);
    assert!(skipped);
    assert_eq!(state.scan_queue.len(), 0);
}

#[test]
fn calibration_consistent_suppresses_noise() {
    let probes = vec![(404u32, 7usize), (404, 7), (404, 7)];
    let profile = calibrate(&probes);
    assert!(profile.reliable);
    assert_eq!(profile.code, 404);
    assert!(profile.matches_signature(404, 7));
    assert!(!profile.matches_signature(404, 100));
    assert!(!profile.matches_signature(200, 7));
    assert!(profile.scan_folder(&ScanOpts { scan_401: false, scan_403: false }));

    // Sizes within the tolerance still calibrate.
    let probes = vec![(200u32, 100usize), (200, 110)];
    let profile = calibrate(&probes);
    assert!(profile.reliable);
    assert!(profile.matches_signature(200, 105));

    // Access-denied calibrations are descended only on request.
    let probes = vec![(403u32, 9usize), (403, 9)];
    let profile = calibrate(&probes);
    assert!(profile.reliable);
    assert!(!profile.scan_folder(&ScanOpts { scan_401: false, scan_403: false }));
    assert!(profile.scan_folder(&ScanOpts { scan_401: false, scan_403: true }));
}

#[test]
fn worker_routing_decisions() {
    // A transport failure or fabricated entry is emitted only; a
    // suppressed finding is dropped; a confirmed directory is also
    // validated.
    let profile = calibrate(&vec![(404u32, 7usize), (404, 7)]);

    let mut finding = RequestResponse {
        url: "http://x/a".to_string(),
        code: 0,
        content_len: 0,
        is_directory: true,
        is_listable: false,
        redirect_url: String::new(),
        found_from_listable: true,
        parent_index: 0,
        parent_depth: 1,
    };
    assert_eq!(finding_action(&finding, &Some(profile)), FindingAction::EmitOnly);

    finding.code = 404;
    finding.content_len = 7;
    assert_eq!(finding_action(&finding, &Some(profile)), FindingAction::Suppress);

    finding.code = 301;
    finding.content_len = 0;
    assert_eq!(finding_action(&finding, &Some(profile)), FindingAction::EmitAndValidate);

    finding.is_directory = false;
    assert_eq!(finding_action(&finding, &Some(profile)), FindingAction::EmitOnly);

    finding.is_directory = true;
    assert_eq!(finding_action(&finding, &None), FindingAction::EmitAndValidate);
}

#[test]
fn transport_failure_and_sentinels() {
    let r = transport_failure_response("http://x/a".to_string());
    assert_eq!(r.code, 0);
    assert!(!r.found_from_listable);
    assert_eq!(r.content_len, 0);

    let end = generate_end();
    assert_eq!(end.url, "data:MAIN ENDING");
    assert_eq!(end.code, 0);

    let end_dir = end_directory_info();
    assert_eq!(end_dir.url, "data:END");
    assert!(end_dir.validator.is_none());
}

#[test]
fn collector_accumulates_body() {
    let mut c = Collector::new();
    assert_eq!(c.len(), 0);
    c.extend_contents(b"Parent ");
    c.extend_contents(b"Directory");
    assert_eq!(c.len(), 16);
    let body = String::from_utf8_lossy(&c.contents).to_string();
    assert_eq!(body, "Parent Directory");
    assert!(is_listable_content(&body));
    c.clear_buffer();
    assert_eq!(c.len(), 0);
    assert!(c.contents.is_empty());
}

#[test]
fn scrape_recursion_depth_gate() {
    // Without a bound, scraping descends freely; with one, only while
    // the scraped URL's depth stays within it.
    let url = "http://x/a/b/".to_string();
    assert!(scrape_recursion_allowed(&url, 1, &None));
    assert!(!scrape_recursion_allowed(&url, 1, &Some(2)));
    assert!(scrape_recursion_allowed(&url, 1, &Some(3)));

    assert_eq!(ensure_trailing_slash(&"http://x/pub".to_string()), "http://x/pub/");
    assert_eq!(ensure_trailing_slash(&"http://x/pub/".to_string()), "http://x/pub/");
}

#[test]
fn host_depth_counts_path_segments() {
    assert_eq!(host_depth(&"http://x/".to_string()), 1);
    assert_eq!(host_depth(&"http://h/a/b/".to_string()), 3);
}
