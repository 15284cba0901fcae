use z_play::random_files::random_file;
use z_play::random_files::random_file_with_timeout;
use z_play::random_files::reduce_scan_result;
use z_play::random_files::reduce_with_draw;
use z_play::random_files::scan_root;
use z_play::random_files::Budget;
use z_play::random_files::Entry;
use z_play::random_files::Kind;
use z_play::random_files::Listing;
use z_play::random_files::ScanResult;

fn file(path: &str, at_ms: u64) -> Entry {
    Entry { path: path.to_string(), kind: Kind::File, at_ms }
}

fn dir(path: &str, at_ms: u64) -> Entry {
    Entry { path: path.to_string(), kind: Kind::Directory, at_ms }
}

fn result(path: &str, count: u64) -> ScanResult {
    ScanResult { selected: Some(path.to_string()), count }
}

/// dirA holds ten files spread over nested directories.
fn dir_a() -> Listing {
    let mut entries = vec![dir("/dirA", 0), dir("/dirA/x", 1)];
    for i in 0..4 {
        entries.push(file(&format!("/dirA/x/{i}.mp4"), 2));
    }
    entries.push(dir("/dirA/y", 3));
    entries.push(dir("/dirA/y/z", 3));
    for i in 4..10 {
        entries.push(file(&format!("/dirA/y/z/{i}.mp4"), 4));
    }
    Listing { root: dir("/dirA", 0), entries }
}

/// dirB holds five files side by side.
fn dir_b() -> Listing {
    let mut entries = vec![dir("/dirB", 0)];
    for i in 0..5 {
        entries.push(file(&format!("/dirB/{i}.png"), 1));
    }
    Listing { root: dir("/dirB", 0), entries }
}

#[test]
fn default_result_is_empty() {
    let r = ScanResult::default();
    assert_eq!(r.selected, None);
    assert_eq!(r.count, 0);
}

#[test]
fn leaf_counts_one() {
    let r = ScanResult::leaf("/a".to_string());
    assert_eq!(r.selected, Some("/a".to_string()));
    assert_eq!(r.count, 1);
}

#[test]
fn draw_below_left_count_keeps_left() {
    let r = reduce_with_draw(result("/a", 3), result("/b", 5), 2);
    assert_eq!(r.selected, Some("/a".to_string()));
    assert_eq!(r.count, 8);
}

#[test]
fn draw_at_left_count_keeps_right() {
    let r = reduce_with_draw(result("/a", 3), result("/b", 5), 3);
    assert_eq!(r.selected, Some("/b".to_string()));
    assert_eq!(r.count, 8);
}

#[test]
fn empty_side_yields_to_the_other() {
    let r = reduce_with_draw(ScanResult::default(), result("/b", 5), 0);
    assert_eq!(r.selected, Some("/b".to_string()));
    assert_eq!(r.count, 5);
    let r = reduce_with_draw(result("/a", 3), ScanResult::default(), 7);
    assert_eq!(r.selected, Some("/a".to_string()));
    assert_eq!(r.count, 3);
    let r = reduce_with_draw(ScanResult::default(), ScanResult::default(), 0);
    assert_eq!(r.selected, None);
    assert_eq!(r.count, 0);
}

#[test]
fn counts_saturate() {
    let r = reduce_with_draw(result("/a", u64::MAX), result("/b", 5), u64::MAX - 1);
    assert_eq!(r.count, u64::MAX);
    assert_eq!(r.selected, Some("/a".to_string()));
}

#[test]
fn count_is_the_same_in_any_grouping_and_order() {
    let draws = [0u64, 1, 4, 9];
    for d1 in draws {
        for d2 in draws {
            let left = reduce_with_draw(
                reduce_with_draw(result("/a", 2), result("/b", 3), d1),
                result("/c", 5),
                d2,
            );
            let right = reduce_with_draw(
                result("/a", 2),
                reduce_with_draw(result("/b", 3), result("/c", 5), d1),
                d2,
            );
            let swapped = reduce_with_draw(
                result("/c", 5),
                reduce_with_draw(result("/b", 3), result("/a", 2), d2),
                d1,
            );
            assert_eq!(left.count, 10);
            assert_eq!(right.count, 10);
            assert_eq!(swapped.count, 10);
        }
    }
}

#[test]
fn grouping_does_not_change_the_share_of_draws() {
    // Three single files, grouped ((a b) c) and (a (b c)): over all draws,
    // each file is selected in one third of them.
    let mut left = [0u32; 3];
    let mut right = [0u32; 3];
    let name = |s: &Option<String>| match s.as_deref() {
        Some("/a") => 0,
        Some("/b") => 1,
        Some("/c") => 2,
        _ => panic!("no candidate"),
    };
    for d1 in 0..2u64 {
        for d2 in 0..3u64 {
            let r = reduce_with_draw(
                reduce_with_draw(result("/a", 1), result("/b", 1), d1),
                result("/c", 1),
                d2,
            );
            left[name(&r.selected)] += 1;
            let r = reduce_with_draw(
                result("/a", 1),
                reduce_with_draw(result("/b", 1), result("/c", 1), d1),
                d2,
            );
            right[name(&r.selected)] += 1;
        }
    }
    assert_eq!(left, [2, 2, 2]);
    assert_eq!(right, [2, 2, 2]);
}

#[test]
fn random_reduce_keeps_one_of_the_two() {
    let mut seen_a = false;
    let mut seen_b = false;
    for _ in 0..400 {
        let r = reduce_scan_result(result("/a", 1), result("/b", 1));
        assert_eq!(r.count, 2);
        match r.selected.as_deref() {
            Some("/a") => seen_a = true,
            Some("/b") => seen_b = true,
            other => panic!("unexpected candidate {other:?}"),
        }
    }
    assert!(seen_a && seen_b);
}

#[test]
fn file_root_is_a_single_leaf() {
    let listing = Listing { root: file("/one.mp3", 0), entries: Vec::new() };
    let mut budget = Budget::new(100);
    let r = scan_root(&listing, &mut budget);
    assert_eq!(r.count, 1);
    assert_eq!(r.selected, Some("/one.mp3".to_string()));
    assert!(!budget.is_cancelled());
}

#[test]
fn unreadable_root_is_skipped() {
    let root = Entry { path: "/gone".to_string(), kind: Kind::Unreadable, at_ms: 0 };
    let listing = Listing { root, entries: Vec::new() };
    let mut budget = Budget::new(100);
    let r = scan_root(&listing, &mut budget);
    assert_eq!(r.count, 0);
    assert_eq!(r.selected, None);
    assert!(!budget.is_cancelled());
}

#[test]
fn directories_and_unreadable_entries_do_not_count() {
    let entries = vec![
        dir("/d", 0),
        Entry { path: "/d/locked".to_string(), kind: Kind::Unreadable, at_ms: 1 },
        file("/d/a.mp4", 1),
        dir("/d/sub", 2),
        file("/d/sub/b.mp4", 2),
    ];
    let listing = Listing { root: dir("/d", 0), entries };
    let mut budget = Budget::new(100);
    let r = scan_root(&listing, &mut budget);
    assert_eq!(r.count, 2);
    let path = r.selected.unwrap();
    assert!(path == "/d/a.mp4" || path == "/d/sub/b.mp4");
}

#[test]
fn nothing_is_taken_in_after_the_deadline() {
    let entries = vec![file("/d/a", 10), file("/d/b", 50), file("/d/c", 51), file("/d/d", 20)];
    let listing = Listing { root: dir("/d", 0), entries };
    let mut budget = Budget::new(50);
    let r = scan_root(&listing, &mut budget);
    assert_eq!(r.count, 2);
    let path = r.selected.unwrap();
    assert!(path == "/d/a" || path == "/d/b");
    assert!(budget.is_cancelled());
}

#[test]
fn each_root_is_judged_by_its_own_times() {
    // The second root was met late; the first and the third were met in
    // time and both count.
    let roots = || {
        vec![
            Listing { root: dir("/a", 0), entries: vec![file("/a/1", 1)] },
            Listing { root: dir("/b", 11), entries: vec![file("/b/1", 1)] },
            Listing { root: dir("/c", 2), entries: vec![file("/c/1", 2)] },
        ]
    };
    let mut seen_a = false;
    let mut seen_c = false;
    for _ in 0..400 {
        match random_file_with_timeout(&roots(), 10).as_deref() {
            Some("/a/1") => seen_a = true,
            Some("/c/1") => seen_c = true,
            other => panic!("unexpected file {other:?}"),
        }
    }
    assert!(seen_a && seen_c);
}

#[test]
fn file_met_in_time_is_returned_after_a_root_that_ran_out_of_time() {
    let late = Listing { root: dir("/d", 0), entries: vec![file("/d/late", 11)] };
    let single = Listing { root: file("/one.mp3", 3), entries: Vec::new() };
    assert_eq!(random_file_with_timeout(&vec![late, single], 10), Some("/one.mp3".to_string()));
}

#[test]
fn shared_budget_stays_closed_for_the_next_root() {
    // Walkers that share one budget stop together.
    let first = Listing { root: dir("/a", 0), entries: vec![file("/a/1", 1)] };
    let late = Listing { root: dir("/b", 11), entries: vec![file("/b/1", 1)] };
    let after = Listing { root: dir("/c", 2), entries: vec![file("/c/1", 2)] };
    let mut budget = Budget::new(10);
    assert_eq!(scan_root(&first, &mut budget).count, 1);
    assert_eq!(scan_root(&late, &mut budget).count, 0);
    assert!(budget.is_cancelled());
    assert_eq!(scan_root(&after, &mut budget).count, 0);
}

#[test]
fn budget_stays_closed() {
    let mut budget = Budget::new(5);
    assert!(budget.check(5));
    assert!(!budget.check(6));
    assert!(!budget.check(1));
    assert!(budget.is_cancelled());
}

#[test]
fn no_roots_give_none() {
    assert_eq!(random_file(&Vec::new()), None);
}

#[test]
fn roots_without_files_give_none() {
    let empty = Listing { root: dir("/e", 0), entries: vec![dir("/e", 0), dir("/e/f", 1)] };
    assert_eq!(random_file(&vec![empty]), None);
}

#[test]
fn partial_results_are_returned_at_the_deadline() {
    let listing = Listing {
        root: dir("/d", 0),
        entries: vec![file("/d/a", 1), file("/d/b", 5000)],
    };
    assert_eq!(random_file(&vec![listing]), Some("/d/a".to_string()));
}

#[test]
fn sampling_is_uniform_whatever_the_shape() {
    // Fifteen files: ten nested under dirA, five flat under dirB.
    let roots = vec![dir_a(), dir_b()];
    let trials = 30_000u32;
    let mut counts = std::collections::HashMap::new();
    for _ in 0..trials {
        let path = random_file_with_timeout(&roots, 1000).unwrap();
        *counts.entry(path).or_insert(0u32) += 1;
    }
    assert_eq!(counts.len(), 15);
    // Expected 2000 each, standard deviation about 43: allow more than
    // six of them.
    for (path, count) in counts {
        assert!(count > 1700 && count < 2300, "{path} was drawn {count} times");
    }
}

#[test]
fn disabled_root_is_never_sampled() {
    // Only dirA is handed to the sampler once dirB was disabled.
    let roots = vec![dir_a()];
    for _ in 0..1000 {
        let path = random_file(&roots).unwrap();
        assert!(path.starts_with("/dirA/"));
    }
}
