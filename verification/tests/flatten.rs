use std::collections::HashMap;

use course_sync::entry::{FileTask, RemoteEntry};
use course_sync::flatten::{Flattened, Flattener, Progress};
use course_sync::listing::{Page, Pager};

fn file(id: u64, title: &str) -> RemoteEntry {
    RemoteEntry {
        id,
        title: String::from(title),
        extension: String::from("pdf"),
        downloadable: true,
        declared_size: 100 + id,
        remote_path: format!("https://files.example/{}", id),
    }
}

fn dir(id: u64, title: &str) -> RemoteEntry {
    RemoteEntry {
        id,
        title: String::from(title),
        extension: String::from("dir"),
        downloadable: false,
        declared_size: 0,
        remote_path: String::new(),
    }
}

fn task(entry: RemoteEntry, dir: &str) -> FileTask {
    FileTask { entry, local_relative_dir: String::from(dir) }
}

struct Remote {
    listings: HashMap<u64, Vec<RemoteEntry>>,
    page_size: usize,
    requests: Vec<(u64, u64)>,
}

impl Remote {
    fn new(page_size: usize) -> Remote {
        Remote { listings: HashMap::new(), page_size, requests: Vec::new() }
    }

    fn put(&mut self, id: u64, children: Vec<RemoteEntry>) {
        self.listings.insert(id, children);
    }

    fn list_all(&mut self, id: u64) -> Vec<RemoteEntry> {
        let all = self.listings.get(&id).cloned().unwrap_or_default();
        let mut pager = Pager::new(id);
        while let Some(page) = pager.next_page() {
            self.requests.push((id, page));
            let from = ((page as usize - 1) * self.page_size).min(all.len());
            let to = (page as usize * self.page_size).min(all.len());
            pager.accept(Page { total_count: all.len(), entries: all[from..to].to_vec() });
        }
        pager.into_entries()
    }
}

fn flatten(remote: &mut Remote) -> (Flattened, Vec<String>) {
    let root = remote.list_all(0);
    let mut created = Vec::new();
    let mut walk = Flattener::new(root);
    loop {
        match walk.advance() {
            Progress::Done(done) => return (done, created),
            Progress::Expand(expansion) => {
                created.push(String::from(expansion.local_dir()));
                let children = remote.list_all(expansion.id());
                walk = expansion.deliver(children);
            }
        }
    }
}

fn nested() -> Remote {
    let mut remote = Remote::new(2);
    remote.put(0, vec![file(10, "syllabus"), dir(1, "Week 1"), file(11, "rules"), dir(2, "Week 2")]);
    remote.put(1, vec![dir(3, "Slides"), file(12, "reading"), file(13, "homework")]);
    remote.put(2, vec![file(14, "quiz")]);
    remote.put(3, vec![file(15, "deck a"), file(16, "deck b"), file(17, "deck c")]);
    remote
}

#[test]
fn flatten_finds_every_file_once_under_its_path() {
    let (done, _) = flatten(&mut nested());
    assert_eq!(
        done.files,
        vec![
            task(file(10, "syllabus"), "."),
            task(file(11, "rules"), "."),
            task(file(12, "reading"), "./Week 1"),
            task(file(13, "homework"), "./Week 1"),
            task(file(14, "quiz"), "./Week 2"),
            task(file(15, "deck a"), "./Week 1/Slides"),
            task(file(16, "deck b"), "./Week 1/Slides"),
            task(file(17, "deck c"), "./Week 1/Slides"),
        ]
    );
    assert_eq!(done.files.len(), 8);
}

#[test]
fn flatten_creates_each_directory_once_in_breadth_first_order() {
    let mut remote = nested();
    let (done, created) = flatten(&mut remote);
    assert_eq!(created, vec!["./Week 1", "./Week 2", "./Week 1/Slides"]);
    assert_eq!(done.directory_count, 3);
    let first_pages: Vec<u64> =
        remote.requests.iter().filter(|r| r.1 == 1).map(|r| r.0).collect();
    assert_eq!(first_pages, vec![0, 1, 2, 3]);
    assert_eq!(remote.requests.len(), 2 + 2 + 1 + 2);
}

#[test]
fn flatten_of_a_deep_chain_spells_out_the_whole_path() {
    let mut remote = Remote::new(20);
    remote.put(0, vec![dir(1, "a")]);
    remote.put(1, vec![dir(2, "b")]);
    remote.put(2, vec![dir(3, "c")]);
    remote.put(3, vec![dir(4, "d")]);
    remote.put(4, vec![file(9, "leaf")]);
    let (done, created) = flatten(&mut remote);
    assert_eq!(done.files, vec![task(file(9, "leaf"), "./a/b/c/d")]);
    assert_eq!(created, vec!["./a", "./a/b", "./a/b/c", "./a/b/c/d"]);
    assert_eq!(done.directory_count, 4);
}

#[test]
fn flatten_of_an_empty_course_is_empty() {
    let mut remote = Remote::new(20);
    let (done, created) = flatten(&mut remote);
    assert!(done.files.is_empty());
    assert_eq!(done.directory_count, 0);
    assert!(created.is_empty());
}

#[test]
fn flatten_of_files_only_expands_nothing() {
    let root = vec![file(1, "a"), file(2, "b")];
    match Flattener::new(root).advance() {
        Progress::Done(done) => {
            assert_eq!(done.files, vec![task(file(1, "a"), "."), task(file(2, "b"), ".")]);
            assert_eq!(done.directory_count, 0);
        }
        Progress::Expand(_) => panic!("nothing to expand"),
    }
}

#[test]
fn flatten_sanitizes_directory_titles() {
    let mut remote = Remote::new(20);
    remote.put(0, vec![dir(1, "Q&A: part 1/2")]);
    remote.put(1, vec![file(5, "answers")]);
    let (done, created) = flatten(&mut remote);
    assert_eq!(created, vec!["./Q&A  part 1 2"]);
    assert_eq!(done.files, vec![task(file(5, "answers"), "./Q&A  part 1 2")]);
}

#[test]
fn flatten_expands_a_repeated_directory_id_once() {
    let mut remote = Remote::new(1);
    remote.put(0, vec![dir(1, "Week 1"), file(10, "syllabus"), dir(1, "Week 1")]);
    remote.put(1, vec![file(11, "reading"), dir(1, "Week 1")]);
    let (done, created) = flatten(&mut remote);
    assert_eq!(created, vec!["./Week 1"]);
    assert_eq!(done.directory_count, 1);
    assert_eq!(
        done.files,
        vec![task(file(10, "syllabus"), "."), task(file(11, "reading"), "./Week 1")]
    );
}

#[test]
fn flatten_asks_for_the_first_directory_before_looking_further() {
    let root = vec![file(1, "a"), dir(2, "d"), file(3, "b")];
    match Flattener::new(root).advance() {
        Progress::Expand(expansion) => {
            assert_eq!(expansion.id(), 2);
            assert_eq!(expansion.local_dir(), "./d");
            match expansion.deliver(vec![file(4, "c")]).advance() {
                Progress::Done(done) => {
                    assert_eq!(
                        done.files,
                        vec![task(file(1, "a"), "."), task(file(3, "b"), "."), task(file(4, "c"), "./d")]
                    );
                    assert_eq!(done.directory_count, 1);
                }
                Progress::Expand(_) => panic!("one directory only"),
            }
        }
        Progress::Done(_) => panic!("a directory waits"),
    }
}
