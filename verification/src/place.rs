//! Output placement: the origin becomes a directory-safe host key, a
//! logical source path from a map is sanitized and split, and the target
//! directory and file path under `./out/` are computed.

use vstd::prelude::*;

use crate::text::{
    find_last_slash, last_slash, lemma_last_slash, starts_with, strip_prefix, strip_prefix_once,
};

verus! {

/// The origin with one leading `http://`, then one leading `https://`,
/// trimmed: the top-level output directory name. Other schemes flow
/// through untouched. The trims are ordered, so for an ordinary origin the
/// second is a no-op; an origin that begins with both schemes in sequence
/// loses both.
pub open spec fn host_key(h: Seq<char>) -> Seq<char> {
    strip_prefix(strip_prefix(h, "http://"@), "https://"@)
}

/// A logical source path with one leading `webpack:///`, then one leading
/// `./`, trimmed.
pub open spec fn sanitize(p: Seq<char>) -> Seq<char> {
    strip_prefix(strip_prefix(p, "webpack:///"@), "./"@)
}

/// The file component of a sanitized path: what follows the last `/`, or
/// the whole path when it holds none. Empty exactly when no file name can
/// be extracted.
pub open spec fn file_part(p: Seq<char>) -> Seq<char> {
    if last_slash(p) == -1 {
        p
    } else {
        p.skip(last_slash(p) + 1)
    }
}

/// The directory component of a sanitized path: what precedes the last
/// `/`, possibly empty.
pub open spec fn dir_part(p: Seq<char>) -> Seq<char> {
    if last_slash(p) == -1 {
        Seq::empty()
    } else {
        p.take(last_slash(p))
    }
}

/// The directory a recovered source lands in: `./out/<host key>`, with the
/// logical directory appended when there is one.
pub open spec fn out_dir(host: Seq<char>, logical: Seq<char>) -> Seq<char> {
    if dir_part(sanitize(logical)).len() == 0 {
        "./out/"@ + host_key(host)
    } else {
        "./out/"@ + host_key(host) + "/"@ + dir_part(sanitize(logical))
    }
}

/// The full path of a recovered source: its directory, a `/`, and its file
/// name.
pub open spec fn out_path(host: Seq<char>, logical: Seq<char>) -> Seq<char> {
    out_dir(host, logical) + "/"@ + file_part(sanitize(logical))
}

/// A file component that names no file: empty (the sanitized path ended
/// in `/` or was empty) or a bare dot component, for which the platform
/// extracts no file name.
pub open spec fn bad_file(f: Seq<char>) -> bool {
    f.len() == 0 || f == seq!['.'] || f == seq!['.', '.']
}

/// The root every output path lies under: `./out/<host key>/`.
pub open spec fn out_root(host: Seq<char>) -> Seq<char> {
    "./out/"@ + host_key(host) + "/"@
}

/// Whatever is glued to the right of `p`, the result still begins with `p`.
pub proof fn lemma_starts_with_concat(p: Seq<char>, rest: Seq<char>)
    ensures
        starts_with(p + rest, p),
{
    assert((p + rest).subrange(0, p.len() as int) =~= p);
}

/// Every output path begins with `./out/<host key>/`.
pub proof fn lemma_out_path_under_root(host: Seq<char>, logical: Seq<char>)
    ensures
        starts_with(out_path(host, logical), out_root(host)),
{
    let hk = host_key(host);
    let d = dir_part(sanitize(logical));
    let f = file_part(sanitize(logical));
    if d.len() == 0 {
        assert(out_path(host, logical) =~= out_root(host) + f);
        lemma_starts_with_concat(out_root(host), f);
    } else {
        assert(out_path(host, logical) =~= out_root(host) + (d + "/"@ + f));
        lemma_starts_with_concat(out_root(host), d + "/"@ + f);
    }
}

/// One planned write: the directory to create, the file path to open for
/// create-or-append, and the text to write verbatim.
pub struct WriteCmd {
    pub dir: String,
    pub path: String,
    pub contents: String,
}

/// The ghost image of a planned write.
pub struct WriteCmdView {
    pub dir: Seq<char>,
    pub path: Seq<char>,
    pub contents: Seq<char>,
}

impl View for WriteCmd {
    type V = WriteCmdView;

    open spec fn view(&self) -> WriteCmdView {
        WriteCmdView { dir: self.dir@, path: self.path@, contents: self.contents@ }
    }
}

impl DeepView for WriteCmd {
    type V = WriteCmdView;

    open spec fn deep_view(&self) -> WriteCmdView {
        self@
    }
}

/// A sanitized logical path with no usable file component (empty, `.` or
/// `..`): nothing can be placed for it.
#[derive(Debug, PartialEq, Eq, Structural)]
pub enum PathError {
    BadPath,
}

/// The directory-safe host string: the origin with one leading `http://`,
/// then one leading `https://`, trimmed.
pub fn host_key_str<'a>(h: &'a str) -> (r: &'a str)
    ensures
        r@ == host_key(h@),
{
    strip_prefix_once(strip_prefix_once(h, "http://"), "https://")
}

/// Does `logical` sanitize to a path with no usable file component? Such
/// an entry cannot be placed and is reported, then skipped.
pub fn bad_file_check(logical: &str) -> (r: bool)
    ensures
        r == bad_file(file_part(sanitize(logical@))),
{
    let trimmed = strip_prefix_once(strip_prefix_once(logical, "webpack:///"), "./");
    let n = trimmed.unicode_len();
    let file_start = match find_last_slash(trimmed) {
        Some(k) => k + 1,
        None => 0,
    };
    proof {
        lemma_last_slash(trimmed@);
    }
    let file = trimmed.substring_char(file_start, n);
    proof {
        if last_slash(trimmed@) == -1 {
            assert(trimmed@.subrange(0, n as int) =~= trimmed@);
        } else {
            assert(trimmed@.subrange(file_start as int, n as int) =~= trimmed@.skip(
                last_slash(trimmed@) + 1,
            ));
        }
        assert(file@ == file_part(sanitize(logical@)));
    }
    let flen = file.unicode_len();
    if flen == 0 {
        return true;
    }
    if flen == 1 && file.get_char(0) == '.' {
        proof {
            assert(file@ =~= seq!['.']);
        }
        return true;
    }
    if flen == 2 && file.get_char(0) == '.' && file.get_char(1) == '.' {
        proof {
            assert(file@ =~= seq!['.', '.']);
        }
        return true;
    }
    proof {
        assert(!bad_file(file@)) by {
            if file@ == seq!['.'] {
                assert(file@[0] == '.');
            }
            if file@ == seq!['.', '.'] {
                assert(file@[0] == '.');
                assert(file@[1] == '.');
            }
        }
    }
    false
}

/// Where a recovered source goes. `host` is the origin; `logical` the path
/// the map reports for the source; `contents` its inlined text. Fails with
/// `BadPath` exactly when the sanitized path has no usable file component
/// (empty, `.` or `..`); else the planned write puts `contents` unchanged
/// at `./out/<host key>[/<dir>]/<file>`, which always lies under the
/// host-keyed output root. The root is a textual prefix: a `..` among the
/// directory components still climbs upward when the path reaches a real
/// filesystem, so a caller that must confine writes rejects those too.
pub fn plan_write(host: &str, logical: &str, contents: &str) -> (r: Result<WriteCmd, PathError>)
    ensures
        r matches Ok(cmd) ==> cmd@.dir == out_dir(host@, logical@) && cmd@.path == out_path(
            host@,
            logical@,
        ) && cmd@.contents == contents@,
        r is Err <==> bad_file(file_part(sanitize(logical@))),
        r matches Ok(cmd) ==> starts_with(cmd@.path, out_root(host@)),
{
    let hk = host_key_str(host);
    let trimmed = strip_prefix_once(strip_prefix_once(logical, "webpack:///"), "./");
    let n = trimmed.unicode_len();
    let (dir_len, file_start) = match find_last_slash(trimmed) {
        Some(k) => (k, k + 1),
        None => (0, 0),
    };
    proof {
        lemma_last_slash(trimmed@);
    }
    let file = trimmed.substring_char(file_start, n);
    proof {
        if last_slash(trimmed@) == -1 {
            assert(trimmed@.subrange(0, n as int) =~= trimmed@);
        } else {
            assert(trimmed@.subrange(file_start as int, n as int) =~= trimmed@.skip(
                last_slash(trimmed@) + 1,
            ));
        }
        assert(file@ == file_part(sanitize(logical@)));
    }
    let flen = file.unicode_len();
    if flen == 0 {
        return Err(PathError::BadPath);
    }
    if flen == 1 && file.get_char(0) == '.' {
        proof {
            assert(file@ =~= seq!['.']);
        }
        return Err(PathError::BadPath);
    }
    if flen == 2 && file.get_char(0) == '.' && file.get_char(1) == '.' {
        proof {
            assert(file@ =~= seq!['.', '.']);
        }
        return Err(PathError::BadPath);
    }
    proof {
        assert(!bad_file(file@)) by {
            if file@ == seq!['.'] {
                assert(file@[0] == '.');
            }
            if file@ == seq!['.', '.'] {
                assert(file@[0] == '.');
                assert(file@[1] == '.');
            }
        }
    }
    let mut dir = String::from_str("./out/");
    dir.append(hk);
    if file_start > 0 && dir_len > 0 {
        let d = trimmed.substring_char(0, dir_len);
        proof {
            assert(trimmed@.subrange(0, dir_len as int) =~= trimmed@.take(last_slash(trimmed@)));
        }
        dir.append("/");
        dir.append(d);
    }
    proof {
        if file_start > 0 && dir_len > 0 {
            assert(dir@ =~= out_dir(host@, logical@));
        } else {
            if last_slash(trimmed@) == 0 {
                assert(dir_part(sanitize(logical@)) =~= Seq::<char>::empty());
            }
            assert(dir@ =~= out_dir(host@, logical@));
        }
    }
    let mut path = dir.clone();
    path.append("/");
    path.append(file);
    proof {
        assert(path@ =~= out_path(host@, logical@));
        lemma_out_path_under_root(host@, logical@);
    }
    Ok(WriteCmd { dir, path, contents: contents.to_owned() })
}

} // verus!
