use sweep::walk::{
    strip_root_exec, PathIgnore, PathIgnoreChain, PathIgnoreGit, PathIgnoreSet, SizeDisplay,
};

#[test]
fn size_units() {
    assert_eq!(SizeDisplay::new(0).unit(), ('B', 0));
    assert_eq!(SizeDisplay::new(1023).unit(), ('B', 0));
    assert_eq!(SizeDisplay::new(1024).unit(), ('K', 1));
    assert_eq!(SizeDisplay::new(1024 * 1024 - 1).unit(), ('K', 1));
    assert_eq!(SizeDisplay::new(1024 * 1024).unit(), ('M', 2));
    assert_eq!(SizeDisplay::new(5 << 30).unit(), ('G', 3));
    assert_eq!(SizeDisplay::new(1 << 40).unit(), ('T', 4));
    assert_eq!(SizeDisplay::new(1 << 50).unit(), ('P', 5));
    assert_eq!(SizeDisplay::new(u64::MAX).unit(), ('P', 5));
    assert_eq!(SizeDisplay::new(77).size(), 77);
}

#[test]
fn strip_root_paths() {
    assert_eq!(
        strip_root_exec("/home/u/src/lib.rs", "/home/u"),
        Some(("src/lib.rs".to_string(), "lib.rs".to_string()))
    );
    assert_eq!(strip_root_exec("/home/u", "/home/u"), Some((String::new(), String::new())));
    assert_eq!(strip_root_exec("/home/user", "/home/u"), None);
    assert_eq!(strip_root_exec("home/u/x", "/home/u"), None);
    assert_eq!(
        strip_root_exec("/a//b/./c", "/a/"),
        Some(("b/c".to_string(), "c".to_string()))
    );
}

#[test]
fn gitignore_rules() {
    let text = "# comment\n\ntarget/\n*.log\n!keep.log\n/build\ndocs/*.md\n[\n";
    let ignore = PathIgnoreGit::from_text(text, "/repo".to_string());
    assert!(ignore.matches("/repo/target", true));
    assert!(!ignore.matches("/repo/target", false));
    assert!(ignore.matches("/repo/sub/x.log", false));
    assert!(!ignore.matches("/repo/sub/keep.log", false));
    assert!(ignore.matches("/repo/build", false));
    assert!(ignore.matches("/repo/docs/a.md", false));
    assert!(!ignore.matches("/repo/docs/sub/a.md", false));
    assert!(!ignore.matches("/repo/src/main.rs", false));
    assert!(!ignore.matches("/other/x.log", false));
}

#[test]
fn ignore_set_and_chain() {
    let set = PathIgnoreSet::default();
    assert_eq!(set.filenames, vec![".hg".to_string(), ".git".to_string()]);
    assert!(set.matches("/repo/.git", true));
    assert!(!set.matches("/repo/.github", true));
    let git = PathIgnoreGit::from_text("*.tmp", "/repo".to_string());
    let chain = PathIgnoreChain::new(git, set);
    assert!(chain.matches("/repo/a.tmp", false));
    assert!(chain.matches("/repo/x/.hg", true));
    assert!(!chain.matches("/repo/a.txt", false));
}
