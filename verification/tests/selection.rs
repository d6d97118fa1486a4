use std::collections::BTreeSet;
use std::path::{Component, Path, PathBuf};
use zip_risk_auditor::select::{
    collect_archives, is_path_before, require_archives, Found, HostPath, Input,
};

fn host_path(text: &str) -> HostPath {
    let path = Path::new(text);
    let components = path
        .components()
        .map(|component| {
            let kind = match component {
                Component::Prefix(_) => 0,
                Component::RootDir => 1,
                Component::CurDir => 2,
                Component::ParentDir => 3,
                Component::Normal(_) => 4,
            };
            let mut numbers: Vec<u32> = vec![kind];
            numbers.extend(component.as_os_str().as_encoded_bytes().iter().map(|byte| *byte as u32));
            numbers
        })
        .collect();
    HostPath {
        display: text.to_string(),
        file_name: path.file_name().map_or(String::new(), |name| name.to_string_lossy().into_owned()),
        components,
    }
}

fn paths(texts: &[&str]) -> Vec<HostPath> {
    texts.iter().map(|text| host_path(text)).collect()
}

#[test]
fn paths_are_ordered_like_those_of_the_standard_library() {
    let texts = [
        "", "a", "a/b", "a-b", "a.b/c", "/a", "./a", "../a", "a//b", "a/./b", "a/b/", "b", "/", ".", "é",
    ];
    for x in texts {
        for y in texts {
            assert_eq!(
                is_path_before(&host_path(x), &host_path(y)),
                PathBuf::from(x) < PathBuf::from(y),
                "{x} {y}"
            );
        }
    }
}

#[test]
fn archives_come_once_and_in_order() {
    let texts = ["z.zip", "dir", "dir/b.ZIP", "dir/a.zip", "dir/c.txt", "dir//a.zip", "d-r/q.zip", "n.txt"];
    let table = paths(&texts);
    let inputs = vec![
        Input { path: 0, found: Found::File },
        Input { path: 7, found: Found::File },
        Input { path: 1, found: Found::Directory(vec![2, 3, 4, 6]) },
        Input { path: 5, found: Found::File },
    ];
    let chosen = collect_archives(&table, &inputs).unwrap();
    let shown: Vec<&str> = chosen.iter().map(|at| texts[*at]).collect();
    let mut expected = BTreeSet::new();
    for text in ["z.zip", "dir/b.ZIP", "dir/a.zip", "d-r/q.zip", "dir//a.zip"] {
        expected.insert(PathBuf::from(text));
    }
    let expected: Vec<PathBuf> = expected.into_iter().collect();
    assert_eq!(shown, expected.iter().map(|path| path.to_str().unwrap()).collect::<Vec<_>>());
    assert_eq!(chosen, vec![6, 3, 2, 0]);
}

#[test]
fn the_first_candidate_stands_for_its_path() {
    let table = paths(&["a/./x.zip", "a/x.zip", "a"]);
    let inputs = vec![
        Input { path: 0, found: Found::File },
        Input { path: 2, found: Found::Directory(vec![1]) },
    ];
    assert_eq!(collect_archives(&table, &inputs).unwrap(), vec![0]);
}

#[test]
fn the_first_failure_is_reported() {
    let table = paths(&["a.zip", "gone", "locked"]);
    let inputs = vec![
        Input { path: 0, found: Found::File },
        Input { path: 1, found: Found::Missing },
        Input { path: 2, found: Found::WalkFailed("permission denied".to_string()) },
    ];
    assert_eq!(
        collect_archives(&table, &inputs),
        Err("Input path does not exist: gone".to_string())
    );
    assert_eq!(
        collect_archives(&table, &inputs[2..]),
        Err("Could not walk locked: permission denied".to_string())
    );
}

#[test]
fn nothing_to_inspect_is_refused() {
    let chosen = collect_archives(&paths(&["a.txt"]), &[Input { path: 0, found: Found::File }]).unwrap();
    assert!(chosen.is_empty());
    assert_eq!(
        require_archives(&chosen),
        Err("No .zip files were found in the selected inputs.".to_string())
    );
    assert_eq!(require_archives(&[3]), Ok(()));
}

#[test]
fn order_and_repetition_of_inputs_make_no_difference() {
    let table = paths(&["b.zip", "dir", "dir/a.zip", "dir/n.txt", "./b.zip", "b.zip"]);
    let directory = || Input { path: 1, found: Found::Directory(vec![2, 3]) };
    let file = |at: usize| Input { path: at, found: Found::File };
    let shown = |inputs: &[Input]| -> Vec<Vec<Vec<u32>>> {
        let chosen = collect_archives(&table, inputs).unwrap();
        chosen.iter().map(|at| table[*at].components.clone()).collect()
    };
    let once = shown(&[file(0), directory()]);
    assert_eq!(once.len(), 2);
    assert_eq!(shown(&[directory(), file(5), directory(), file(0)]), once);
    assert_ne!(shown(&[directory(), file(4)]), once);
}
