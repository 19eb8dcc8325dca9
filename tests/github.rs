use discord_callsign_bot::github::{contents_url, contents_url_on_branch, file_update};

#[test]
fn contents_urls() {
    assert_eq!(
        contents_url("owner/repo", "members.txt"),
        "https://api.github.com/repos/owner/repo/contents/members.txt"
    );
    assert_eq!(
        contents_url_on_branch("owner/repo", "dir/members.txt", "main"),
        "https://api.github.com/repos/owner/repo/contents/dir/members.txt?ref=main"
    );
}

#[test]
fn file_update_encodes_content() {
    let u = file_update("Update list", "W6JSV Jay\n", "main", None);
    assert_eq!(u.content, "VzZKU1YgSmF5Cg==");
    assert_eq!(u.message, "Update list");
    assert_eq!(u.branch, "main");
    assert!(u.sha.is_none());
    let u = file_update("m", "", "b", Some("abc".to_string()));
    assert_eq!(u.content, "");
    assert_eq!(u.sha, Some("abc".to_string()));
}
