use std::path::{Component as StdComponent, Path, PathBuf};

use rocs::path::{
    add_md_extension, components_of, extension_of, file_name_of, has_only_normal_components,
    join_path, starts_with_path, Component,
};

const SAMPLES: [&str; 34] = [
    "", ".", "..", "/", "//", "/.", "./", "a", "a/", "a//", "a/.", "a/./", "./a", ".//a", "a/./b",
    "a//b", "a/../b", "../a", "/a/b", "/a/./b/", "a.md", "a.b.md", ".hidden", "a/.hidden",
    "..md", "a/..md", "notes.", "dir/file.tar.gz", "x/y/..", "/srv/docs/README.md",
    "./.", "a/b/c/", "...", "a/.../b",
];

fn ours(p: &str) -> Vec<String> {
    components_of(p)
        .into_iter()
        .map(|c| match c {
            Component::RootDir => "<root>".to_string(),
            Component::CurDir => "<cur>".to_string(),
            Component::ParentDir => "<parent>".to_string(),
            Component::Normal(s) => s,
        })
        .collect()
}

fn theirs(p: &str) -> Vec<String> {
    Path::new(p)
        .components()
        .map(|c| match c {
            StdComponent::RootDir => "<root>".to_string(),
            StdComponent::CurDir => "<cur>".to_string(),
            StdComponent::ParentDir => "<parent>".to_string(),
            StdComponent::Normal(s) => s.to_str().unwrap().to_string(),
            StdComponent::Prefix(_) => "<prefix>".to_string(),
        })
        .collect()
}

#[test]
fn components_agree_with_std() {
    for p in SAMPLES {
        assert_eq!(ours(p), theirs(p), "components of {:?}", p);
        let all_normal = Path::new(p).components().all(|c| matches!(c, StdComponent::Normal(_)));
        assert_eq!(has_only_normal_components(p), all_normal, "plain names in {:?}", p);
    }
}

#[test]
fn file_name_and_extension_agree_with_std() {
    for p in SAMPLES {
        let name = Path::new(p).file_name().map(|s| s.to_str().unwrap().to_string());
        assert_eq!(file_name_of(p), name, "file name of {:?}", p);
        let ext = Path::new(p).extension().map(|s| s.to_str().unwrap().to_string());
        assert_eq!(extension_of(p), ext, "extension of {:?}", p);
    }
}

#[test]
fn join_agrees_with_std() {
    for a in SAMPLES {
        for b in SAMPLES {
            let joined = Path::new(a).join(b);
            assert_eq!(join_path(a, b), joined.to_str().unwrap(), "join of {:?} and {:?}", a, b);
        }
    }
}

#[test]
fn md_extension_agrees_with_std() {
    for p in SAMPLES {
        if Path::new(p).extension().is_none() {
            let mut buf = PathBuf::from(p);
            buf.set_extension("md");
            assert_eq!(add_md_extension(p), buf.to_str().unwrap(), "set_extension on {:?}", p);
        }
    }
}

#[test]
fn starts_with_agrees_with_std() {
    for a in SAMPLES {
        for b in SAMPLES {
            assert_eq!(starts_with_path(a, b), Path::new(a).starts_with(b), "{:?} starts with {:?}", a, b);
        }
    }
}
