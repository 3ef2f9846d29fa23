use glorp::swapper::{relative_url_path, PathPart};

fn normal(s: &str) -> PathPart {
    PathPart::Normal(s.as_bytes().to_vec())
}

#[test]
fn relative_path_uses_forward_slashes() {
    // "/root/swapper" and "/root/swapper/img/x.png", by their components
    let root = vec![PathPart::RootDir, normal("root"), normal("swapper")];
    let file = vec![PathPart::RootDir, normal("root"), normal("swapper"), normal("img"), normal("x.png")];
    assert_eq!(relative_url_path(&root, &file).as_deref(), Some("img/x.png"));
}
