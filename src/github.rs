use vstd::prelude::*;
use vstd::string::*;

use base64::Engine;

verus! {

/// The standard base64 encoding, with padding, of the UTF-8 bytes of a text.
pub uninterp spec fn base64_standard(s: Seq<char>) -> Seq<char>;

/// Relies on base64's STANDARD engine `encode`: the padded base64 text of
/// the UTF-8 bytes of `content`; it panics only where the encoded length
/// overflows `usize`, which the bound on the length rules out.
#[verifier::external_body]
fn encode_base64(content: &str) -> (r: String)
    requires
        content@.len() <= usize::MAX / 8,
    ensures
        r@ == base64_standard(content@),
{
    base64::engine::general_purpose::STANDARD.encode(content)
}

/// The body of a request that creates or replaces a file in a repository.
pub struct FileUpdate {
    pub message: String,
    pub content: String,
    pub branch: String,
    pub sha: Option<String>,
}

pub open spec fn api_base() -> Seq<char> {
    seq!['h', 't', 't', 'p', 's', ':', '/', '/', 'a', 'p', 'i', '.', 'g', 'i', 't', 'h', 'u', 'b',
    '.', 'c', 'o', 'm', '/', 'r', 'e', 'p', 'o', 's', '/']
}

pub open spec fn contents_part() -> Seq<char> {
    seq!['/', 'c', 'o', 'n', 't', 'e', 'n', 't', 's', '/']
}

pub open spec fn ref_part() -> Seq<char> {
    seq!['?', 'r', 'e', 'f', '=']
}

/// The address of the file `path` of repository `repo` in the contents API.
pub fn contents_url(repo: &str, path: &str) -> (r: String)
    ensures
        r@ == api_base() + repo@ + contents_part() + path@,
{
    proof {
        reveal_strlit("https://api.github.com/repos/");
        reveal_strlit("/contents/");
    }
    let mut url = String::from_str("https://api.github.com/repos/");
    url.append(repo);
    url.append("/contents/");
    url.append(path);
    assert(url@ =~= api_base() + repo@ + contents_part() + path@);
    url
}

/// The address of the file `path` of repository `repo` on branch `branch`.
pub fn contents_url_on_branch(repo: &str, path: &str, branch: &str) -> (r: String)
    ensures
        r@ == api_base() + repo@ + contents_part() + path@ + ref_part() + branch@,
{
    proof {
        reveal_strlit("?ref=");
    }
    let mut url = contents_url(repo, path);
    url.append("?ref=");
    url.append(branch);
    assert(url@ =~= api_base() + repo@ + contents_part() + path@ + ref_part() + branch@);
    url
}

/// The request that writes `content` to a file: the content base64-encoded,
/// the rest as given; `sha` names the version replaced, `None` for a new file.
pub fn file_update(message: &str, content: &str, branch: &str, sha: Option<String>) -> (r:
    FileUpdate)
    requires
        content@.len() <= usize::MAX / 8,
    ensures
        r.message@ == message@,
        r.content@ == base64_standard(content@),
        r.branch@ == branch@,
        r.sha == sha,
{
    FileUpdate {
        message: String::from_str(message),
        content: encode_base64(content),
        branch: String::from_str(branch),
        sha,
    }
}

} // verus!
