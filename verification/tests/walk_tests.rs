use image_converter::convert::ConversionRequest;
use image_converter::error::{ConvertError, ErrorKind};
use image_converter::format::ImageFormat;
use image_converter::walk::{DirEntry, EntryKind, Event, Task, Walker};
use std::collections::HashMap;

fn file(path: &str) -> DirEntry {
    DirEntry { path: String::from(path), is_directory: false, identity: String::new() }
}

fn directory(path: &str) -> DirEntry {
    DirEntry { path: String::from(path), is_directory: true, identity: String::from(path) }
}

fn link(path: &str, target: &str) -> DirEntry {
    DirEntry { path: String::from(path), is_directory: true, identity: String::from(target) }
}

fn conversion(path: &str, output_directory: &Option<String>) -> Task {
    Task::Convert(ConversionRequest::new(path, output_directory, ImageFormat::Webp))
}

fn listing(path: &str) -> Task {
    Task::ReadDirectory(String::from(path))
}

/// Walks a tree held in memory, every conversion succeeding, and returns
/// the tasks in the order in which they were handed out.
fn walk_all(tree: &HashMap<String, Vec<DirEntry>>, root: &str, rounds: &mut usize) -> Vec<Task> {
    let start = if tree.contains_key(root) { directory(root) } else { file(root) };
    let mut walker = Walker::new(&start, &None, ImageFormat::Webp);
    let mut done = Vec::new();
    while !walker.is_finished() {
        *rounds += 1;
        for task in walker.next_batch() {
            match &task {
                Task::ReadDirectory(path) => walker.record(Event::Listed(tree[path].clone())),
                Task::Convert(request) => {
                    walker.record(Event::Converted(Ok(request.output_path())))
                }
            }
            done.push(task);
        }
    }
    assert_eq!(walker.outcome(), Ok(()));
    done
}

#[test]
fn classify_tells_directories_candidates_and_the_rest_apart() {
    let webp = ImageFormat::Webp;
    assert_eq!(directory("root/sub").classify(&webp), EntryKind::Directory);
    assert_eq!(directory("root/sub.png").classify(&webp), EntryKind::Directory);
    assert_eq!(file("root/a.png").classify(&webp), EntryKind::CandidateFile);
    assert_eq!(file("root/a.webp").classify(&webp), EntryKind::IgnoredFile);
    assert_eq!(file("root/a.txt").classify(&webp), EntryKind::IgnoredFile);
    assert_eq!(file("root/a.webp").classify(&ImageFormat::Avif), EntryKind::CandidateFile);
}

#[test]
fn a_root_that_is_no_directory_ends_the_walk_at_once() {
    let mut walker = Walker::new(&file("root/file.png"), &None, ImageFormat::Webp);
    assert!(walker.is_finished());
    assert_eq!(walker.outcome(), Ok(()));
    assert_eq!(walker.next_batch(), Vec::<Task>::new());
    assert!(walker.is_finished());
    assert_eq!(walker.outcome(), Ok(()));
}

#[test]
fn a_root_directory_is_listed_first() {
    let mut walker = Walker::new(&directory("root"), &None, ImageFormat::Webp);
    assert!(!walker.is_finished());
    assert_eq!(walker.next_batch(), vec![listing("root")]);
    assert!(walker.is_finished());
    assert_eq!(walker.next_batch(), Vec::<Task>::new());
    assert_eq!(walker.outcome(), Ok(()));
}

#[test]
fn every_candidate_of_a_listing_is_converted_once() {
    let out = Some(String::from("out"));
    let mut walker = Walker::new(&directory("root"), &out, ImageFormat::Webp);
    walker.next_batch();
    let names = ["root/a.png", "root/b.jpg", "root/c.gif", "root/d.bmp", "root/e.tiff"];
    walker.record(Event::Listed(names.iter().map(|name| file(name)).collect()));
    let batch = walker.next_batch();
    let expected: Vec<Task> = names.iter().map(|name| conversion(name, &out)).collect();
    assert_eq!(batch, expected);
    let outputs: Vec<String> = batch
        .iter()
        .map(|task| match task {
            Task::Convert(request) => request.output_path(),
            Task::ReadDirectory(path) => path.clone(),
        })
        .collect();
    assert_eq!(
        outputs,
        vec!["out/a.webp", "out/b.webp", "out/c.webp", "out/d.webp", "out/e.webp"]
    );
    assert!(walker.is_finished());
    assert_eq!(walker.outcome(), Ok(()));
}

#[test]
fn a_listing_is_split_into_tasks_in_its_order() {
    let mut walker = Walker::new(&directory("root"), &None, ImageFormat::Webp);
    walker.next_batch();
    walker.record(Event::Listed(vec![
        file("root/a.png"),
        directory("root/sub"),
        file("root/notes.txt"),
        file("root/done.webp"),
        file("root/b.JPG"),
        directory("root/other.png"),
    ]));
    assert_eq!(
        walker.next_batch(),
        vec![
            conversion("root/a.png", &None),
            listing("root/sub"),
            conversion("root/b.JPG", &None),
            listing("root/other.png"),
        ]
    );
}

#[test]
fn listings_recorded_before_a_batch_is_taken_add_up() {
    let mut walker = Walker::new(&directory("root"), &None, ImageFormat::Webp);
    walker.record(Event::Listed(vec![file("x/a.png")]));
    walker.record(Event::Listed(vec![]));
    walker.record(Event::Listed(vec![directory("y/sub"), file("y/b.png")]));
    assert_eq!(
        walker.next_batch(),
        vec![
            listing("root"),
            conversion("x/a.png", &None),
            listing("y/sub"),
            conversion("y/b.png", &None),
        ]
    );
}

#[test]
fn an_empty_directory_leaves_nothing_to_do() {
    let mut walker = Walker::new(&directory("root"), &None, ImageFormat::Webp);
    walker.next_batch();
    walker.record(Event::Listed(vec![]));
    assert!(walker.is_finished());
    assert_eq!(walker.outcome(), Ok(()));
}

#[test]
fn a_conversion_that_succeeds_changes_nothing() {
    let mut walker = Walker::new(&directory("root"), &None, ImageFormat::Webp);
    walker.record(Event::Converted(Ok(String::from("root/a.webp"))));
    assert_eq!(walker.outcome(), Ok(()));
    assert_eq!(walker.next_batch(), vec![listing("root")]);
}

#[test]
fn a_directory_that_cannot_be_listed_fails_the_walk() {
    let mut walker = Walker::new(&directory("root"), &None, ImageFormat::Webp);
    walker.next_batch();
    walker.record(Event::Unlisted {
        directory: String::from("root"),
        cause: String::from("permission denied"),
    });
    let error = walker.outcome().unwrap_err();
    assert_eq!(error.kind, ErrorKind::DirectoryRead);
    assert_eq!(error.path, "root");
    assert_eq!(error.cause, "permission denied");
    assert_eq!(error.message(), "Failed to read directory: permission denied");
    assert!(walker.is_finished());
}

#[test]
fn a_failed_conversion_fails_the_walk_and_drops_the_queue() {
    let mut walker = Walker::new(&directory("root"), &None, ImageFormat::Webp);
    walker.next_batch();
    walker.record(Event::Listed(vec![
        file("root/a.png"),
        file("root/broken.png"),
        directory("root/sub"),
    ]));
    let batch = walker.next_batch();
    assert_eq!(batch.len(), 3);
    walker.record(Event::Converted(Ok(String::from("root/a.webp"))));
    walker.record(Event::Listed(vec![file("root/sub/c.png")]));
    assert!(!walker.is_finished());
    let failure = ConvertError::new(ErrorKind::Decode, "root/broken.png", String::from("bad"));
    walker.record(Event::Converted(Err(failure.clone())));
    assert!(walker.is_finished());
    assert_eq!(walker.outcome(), Err(failure));
    assert_eq!(walker.next_batch(), Vec::<Task>::new());
}

#[test]
fn the_first_failure_is_the_one_that_is_kept() {
    let mut walker = Walker::new(&directory("root"), &None, ImageFormat::Webp);
    let first = ConvertError::new(ErrorKind::Decode, "root/a.png", String::from("first"));
    let second = ConvertError::new(ErrorKind::Write, "root/b.webp", String::from("second"));
    walker.record(Event::Converted(Err(first.clone())));
    walker.record(Event::Converted(Err(second)));
    walker.record(Event::Unlisted { directory: String::from("root"), cause: String::from("third") });
    assert_eq!(walker.outcome(), Err(first));
}

#[test]
fn nothing_is_queued_once_the_walk_has_failed() {
    let mut walker = Walker::new(&directory("root"), &None, ImageFormat::Webp);
    let failure = ConvertError::new(ErrorKind::Open, "root/a.png", String::from("gone"));
    walker.record(Event::Converted(Err(failure.clone())));
    walker.record(Event::Listed(vec![file("root/b.png"), directory("root/sub")]));
    walker.record(Event::Converted(Ok(String::from("root/c.webp"))));
    assert!(walker.is_finished());
    assert_eq!(walker.next_batch(), Vec::<Task>::new());
    assert_eq!(walker.outcome(), Err(failure));
}

#[test]
fn a_whole_tree_is_walked_level_by_level() {
    let mut tree = HashMap::new();
    tree.insert(
        String::from("root"),
        vec![file("root/a.png"), directory("root/x"), directory("root/y"), file("root/r.txt")],
    );
    tree.insert(String::from("root/x"), vec![file("root/x/b.jpg"), directory("root/x/deep")]);
    tree.insert(String::from("root/y"), vec![file("root/y/c.webp")]);
    tree.insert(String::from("root/x/deep"), vec![file("root/x/deep/d.gif")]);
    let mut rounds = 0;
    let done = walk_all(&tree, "root", &mut rounds);
    assert_eq!(
        done,
        vec![
            listing("root"),
            conversion("root/a.png", &None),
            listing("root/x"),
            listing("root/y"),
            conversion("root/x/b.jpg", &None),
            listing("root/x/deep"),
            conversion("root/x/deep/d.gif", &None),
        ]
    );
    assert_eq!(rounds, 4);
}

#[test]
fn a_deep_tree_takes_one_task_for_each_directory_and_candidate() {
    let depth = 40;
    let mut tree = HashMap::new();
    let mut path = String::from("root");
    for level in 0..depth {
        let below = format!("{}/d{}", path, level);
        let mut entries = vec![
            file(&format!("{}/left.png", path)),
            file(&format!("{}/right.jpg", path)),
            file(&format!("{}/skip.txt", path)),
        ];
        if level + 1 < depth {
            entries.push(directory(&below));
        }
        tree.insert(path.clone(), entries);
        path = below;
    }
    let mut rounds = 0;
    let done = walk_all(&tree, "root", &mut rounds);
    let listings = done.iter().filter(|task| matches!(task, Task::ReadDirectory(_))).count();
    let conversions = done.iter().filter(|task| matches!(task, Task::Convert(_))).count();
    assert_eq!(listings, depth);
    assert_eq!(conversions, 2 * depth);
    assert_eq!(rounds, depth + 1);
}

#[test]
fn a_tree_walked_with_a_missing_root_does_nothing() {
    let tree = HashMap::new();
    let mut rounds = 0;
    let done = walk_all(&tree, "nowhere", &mut rounds);
    assert_eq!(done, Vec::<Task>::new());
    assert_eq!(rounds, 0);
}

#[test]
fn an_event_is_a_failure_if_it_brings_one() {
    let failure = ConvertError::new(ErrorKind::Encode, "a.png", String::from("no"));
    assert!(Event::Converted(Err(failure)).is_failure());
    assert!(Event::Unlisted { directory: String::from("d"), cause: String::from("no") }
        .is_failure());
    assert!(!Event::Converted(Ok(String::from("a.webp"))).is_failure());
    assert!(!Event::Listed(vec![file("a.png")]).is_failure());
    assert!(!Event::Listed(vec![]).is_failure());
}

#[test]
fn a_batch_with_one_broken_file_fails_the_walk_whatever_the_order() {
    let failure = ConvertError::new(ErrorKind::Decode, "root/broken.png", String::from("bad"));
    let orders: [[usize; 3]; 3] = [[0, 1, 2], [2, 1, 0], [1, 0, 2]];
    for order in orders {
        let mut walker = Walker::new(&directory("root"), &None, ImageFormat::Webp);
        walker.next_batch();
        walker.record(Event::Listed(vec![
            file("root/a.png"),
            file("root/broken.png"),
            file("root/c.png"),
        ]));
        let batch = walker.next_batch();
        assert_eq!(batch.len(), 3);
        for at in order {
            let event = match &batch[at] {
                Task::Convert(request) if request.input_path == "root/broken.png" => {
                    Event::Converted(Err(failure.clone()))
                }
                Task::Convert(request) => Event::Converted(Ok(request.output_path())),
                Task::ReadDirectory(_) => Event::Listed(vec![]),
            };
            walker.record(event);
        }
        assert!(walker.is_finished());
        assert_eq!(walker.outcome(), Err(failure.clone()));
    }
}

#[test]
fn a_directory_met_before_is_not_listed_again() {
    let mut walker = Walker::new(&directory("root"), &None, ImageFormat::Webp);
    walker.next_batch();
    walker.record(Event::Listed(vec![
        directory("root/a"),
        link("root/again", "root/a"),
        link("root/self", "root"),
        directory("root/b"),
        directory("root/b"),
    ]));
    assert_eq!(walker.next_batch(), vec![listing("root/a"), listing("root/b")]);
    walker.record(Event::Listed(vec![link("root/a/up", "root"), link("root/a/b", "root/b")]));
    assert!(walker.is_finished());
    assert_eq!(walker.outcome(), Ok(()));
}

#[test]
fn a_link_is_followed_where_its_target_was_not_met() {
    let mut walker = Walker::new(&directory("root"), &None, ImageFormat::Webp);
    walker.next_batch();
    walker.record(Event::Listed(vec![link("root/elsewhere", "/mnt/photos")]));
    assert_eq!(walker.next_batch(), vec![listing("root/elsewhere")]);
    walker.record(Event::Listed(vec![
        file("root/elsewhere/a.png"),
        link("root/elsewhere/here", "/mnt/photos"),
    ]));
    assert_eq!(walker.next_batch(), vec![conversion("root/elsewhere/a.png", &None)]);
    assert!(walker.is_finished());
}

#[test]
fn a_tree_with_a_cycle_of_links_is_walked_to_its_end() {
    let mut tree = HashMap::new();
    tree.insert(
        String::from("root"),
        vec![file("root/a.png"), directory("root/x"), link("root/me", "root")],
    );
    tree.insert(
        String::from("root/x"),
        vec![file("root/x/b.png"), link("root/x/up", "root"), link("root/x/same", "root/x")],
    );
    let mut rounds = 0;
    let done = walk_all(&tree, "root", &mut rounds);
    assert_eq!(
        done,
        vec![
            listing("root"),
            conversion("root/a.png", &None),
            listing("root/x"),
            conversion("root/x/b.png", &None),
        ]
    );
    assert_eq!(rounds, 3);
}

#[test]
fn the_identity_of_a_file_is_not_looked_at() {
    let mut walker = Walker::new(&directory("root"), &None, ImageFormat::Webp);
    walker.next_batch();
    let mut first = file("root/a.png");
    first.identity = String::from("root");
    let mut second = file("root/b.png");
    second.identity = String::from("root");
    walker.record(Event::Listed(vec![first, second]));
    assert_eq!(
        walker.next_batch(),
        vec![conversion("root/a.png", &None), conversion("root/b.png", &None)]
    );
}
