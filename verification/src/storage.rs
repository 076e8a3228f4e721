//! The store: derivation of file locations for recorded bodies, the
//! file-to-directory collision repair plan, and the catalog updates the
//! repair requires.

use vstd::prelude::*;

use crate::configuration::{resource_match_at, Configuration, Route, RouteMethod};
use crate::strutil::{
    ends_with, find_str, first_occurrence, str_ends_with, str_eq, starts_with,
};
use vstd::string::StringSliceAdditionalSpecFns;
use vstd::utf8::{decode_utf8, valid_utf8};

verus! {

/// Whether a content-type string parses as a MIME type. The answer of
/// `mime::Mime`'s `FromStr` depends on the string alone.
pub uninterp spec fn mime_valid(content_type: Seq<char>) -> bool;

/// The first file extension `mime_guess` knows for a MIME type, from its
/// static table; a function of the string alone.
pub uninterp spec fn mime_ext_first(content_type: Seq<char>) -> Option<Seq<char>>;

/// The MIME type `mime_guess` derives from a file path's extension, from its
/// static table; a function of the path alone.
pub uninterp spec fn mime_of_path(path: Seq<char>) -> Option<Seq<char>>;

/// Whether `serde_json` accepts a string as a JSON document; a function of
/// the string alone.
pub uninterp spec fn json_parses(s: Seq<char>) -> bool;

/// Relies on mime::Mime's `FromStr` implementation: whether the given
/// content-type string is a well-formed MIME type.
#[verifier::external_body]
fn mime_parse_ok(content_type: &str) -> (r: bool)
    ensures
        r == mime_valid(content_type@),
{
    content_type.parse::<mime::Mime>().is_ok()
}

/// Relies on mime_guess::get_mime_extensions_str: the first known file
/// extension for a MIME type, if the crate's table lists any. The crate
/// documents a panic on a malformed MIME string, so only well-formed ones
/// may be passed.
#[verifier::external_body]
fn mime_extensions_first(content_type: &str) -> (r: Option<String>)
    requires
        mime_valid(content_type@),
    ensures
        r is Some <==> mime_ext_first(content_type@) is Some,
        r matches Some(e) ==> mime_ext_first(content_type@) == Some(e@),
{
    mime_guess::get_mime_extensions_str(content_type).and_then(|exts| exts.first()).map(
        |e| e.to_string(),
    )
}

/// Relies on mime_guess::from_path: the MIME type guessed from a file
/// path's extension, if the crate's table knows the extension.
#[verifier::external_body]
fn mime_guess_from_path(file_name: &str) -> (r: Option<String>)
    ensures
        r is Some <==> mime_of_path(file_name@) is Some,
        r matches Some(m) ==> mime_of_path(file_name@) == Some(m@),
{
    mime_guess::from_path(file_name).first().map(|m| m.to_string())
}

/// Relies on serde_json::from_str: whether the string is a JSON document.
#[verifier::external_body]
fn json_accepts(s: &str) -> (r: bool)
    ensures
        r == json_parses(s@),
{
    serde_json::from_str::<serde_json::Value>(s).is_ok()
}

/// Relies on core::str::from_utf8, which std documents to return a string
/// over exactly the input bytes when and only when they are valid UTF-8.
#[verifier::external_body]
pub(crate) fn bytes_to_str(bytes: &[u8]) -> (r: Option<&str>)
    ensures
        r is Some <==> valid_utf8(bytes@),
        r matches Some(s) ==> s.spec_bytes() == bytes@,
{
    core::str::from_utf8(bytes).ok()
}

/// The bytes decode as UTF-8 text that is a JSON document.
pub open spec fn is_json_spec(b: Seq<u8>) -> bool {
    valid_utf8(b) && json_parses(decode_utf8(b))
}

/// Whether a recorded payload is a JSON document.
pub fn is_json(message: &[u8]) -> (r: bool)
    ensures
        r == is_json_spec(message@),
{
    match bytes_to_str(message) {
        Some(s) => {
            proof {
                vstd::utf8::encode_utf8_decode_utf8(s@);
            }
            json_accepts(s)
        },
        None => false,
    }
}

/// Characters that some filesystems reserve; they are replaced in stored
/// paths.
pub open spec fn reserved_char(c: char) -> bool {
    c == '*' || c == '?' || c == '"' || c == '<' || c == '>' || c == ':' || c == '|'
}

/// A character with filesystem-reserved ones replaced by `_`.
pub open spec fn sanitize_char(c: char) -> char {
    if reserved_char(c) {
        '_'
    } else {
        c
    }
}

/// A string with every filesystem-reserved character replaced by `_`.
pub open spec fn sanitized(u: Seq<char>) -> Seq<char> {
    Seq::new(u.len(), |i: int| sanitize_char(u[i]))
}

/// Replaces filesystem-reserved characters of a URI by `_`.
fn sanitize_uri(uri: &str) -> (r: String)
    ensures
        r@ == sanitized(uri@),
{
    let slen = uri.unicode_len();
    let mut out = String::new();
    let mut start: usize = 0;
    let mut i: usize = 0;
    while i < slen
        invariant
            slen == uri@.len(),
            start <= i <= slen,
            out@ == sanitized(uri@.subrange(0, start as int)),
            forall|j: int| start <= j < i ==> !reserved_char(#[trigger] uri@[j]),
        decreases slen - i,
    {
        let c = uri.get_char(i);
        if c == '*' || c == '?' || c == '"' || c == '<' || c == '>' || c == ':' || c == '|' {
            let run = uri.substring_char(start, i);
            out.append(run);
            out.append("_");
            proof {
                reveal_strlit("_");
                assert(out@ =~= sanitized(uri@.subrange(0, i + 1)));
            }
            i += 1;
            start = i;
        } else {
            i += 1;
        }
    }
    let run = uri.substring_char(start, slen);
    out.append(run);
    proof {
        assert(out@ =~= sanitized(uri@));
    }
    out
}

/// The extension derived from an optional content type: the type is cut at
/// its first `;`, must be a well-formed MIME type, and the first extension
/// known for it is taken.
pub open spec fn extension_spec(content_type: Option<Seq<char>>) -> Option<Seq<char>> {
    match content_type {
        None => None,
        Some(c) => {
            let base = match first_occurrence(c, ";"@) {
                Some(i) => c.subrange(0, i),
                None => c,
            };
            if mime_valid(base) {
                mime_ext_first(base)
            } else {
                None
            }
        },
    }
}

/// Converts an optional content type to a file extension.
pub fn get_extension(content_type: Option<&str>) -> (r: Option<String>)
    ensures
        ({
            let e = extension_spec(
                match content_type {
                    Some(c) => Some(c@),
                    None => None,
                },
            );
            &&& r is Some <==> e is Some
            &&& (r matches Some(x) ==> e == Some(x@))
        }),
{
    match content_type {
        Some(ct) => {
            proof {
                reveal_strlit(";");
            }
            let base = match find_str(ct, ";") {
                Some(i) => ct.substring_char(0, i),
                None => ct,
            };
            if mime_parse_ok(base) {
                mime_extensions_first(base)
            } else {
                None
            }
        },
        None => None,
    }
}

/// The storage location for a response body: the URI is sanitised, rooted
/// under `./db`, given an `index` file name when it names a directory, and
/// given an extension derived from the content type unless it already ends
/// in `.txt` or `.json`; `.txt` is the fallback.
pub open spec fn save_path_spec(uri: Seq<char>, content_type: Option<Seq<char>>) -> Seq<char> {
    let s = sanitized(uri);
    let with_db = "./db"@ + s;
    let based = if ends_with(with_db, "/"@) {
        with_db + "index"@
    } else {
        with_db
    };
    let suffix = if ends_with(s, ".txt"@) || ends_with(s, ".json"@) {
        Some(Seq::<char>::empty())
    } else {
        extension_spec(content_type)
    };
    match suffix {
        Some(sfx) => if ends_with(based, sfx) {
            based
        } else {
            based + "."@ + sfx
        },
        None => based + ".txt"@,
    }
}

/// Generates the file location for a recorded body.
pub fn get_save_path(uri: &str, content_type: Option<&str>) -> (r: String)
    ensures
        r@ == save_path_spec(
            uri@,
            match content_type {
                Some(c) => Some(c@),
                None => None,
            },
        ),
{
    let s = sanitize_uri(uri);
    let ends_txt = str_ends_with(s.as_str(), ".txt");
    let ends_json = str_ends_with(s.as_str(), ".json");
    let mut path = String::from_str("./db");
    path.append(s.as_str());
    if str_ends_with(path.as_str(), "/") {
        path.append("index");
    }
    if ends_txt || ends_json {
        proof {
            assert(path@.subrange(path@.len() as int, path@.len() as int) =~= Seq::<
                char,
            >::empty());
        }
        path
    } else {
        match get_extension(content_type) {
            Some(suffix) => {
                if str_ends_with(path.as_str(), suffix.as_str()) {
                    path
                } else {
                    path.append(".");
                    path.append(suffix.as_str());
                    path
                }
            },
            None => {
                path.append(".txt");
                path
            },
        }
    }
}

/// Converts a file path to the content type announced for its body.
pub fn get_content_type(file_name: String) -> (r: String)
    ensures
        match mime_of_path(file_name@) {
            Some(m) => r@ == m,
            None => r@ == "text/plain"@,
        },
{
    let guess = mime_guess_from_path(file_name.as_str());
    if let Some(guess) = guess {
        return guess;
    }
    String::from_str("text/plain")
}

/// The position of the last `/` of `p`, if any.
pub open spec fn last_slash(p: Seq<char>) -> Option<int>
    decreases p.len(),
{
    if p.len() == 0 {
        None
    } else if p.last() == '/' {
        Some(p.len() - 1)
    } else {
        last_slash(p.drop_last())
    }
}

/// The directory part of a path: everything before its last `/`, or the
/// whole path when it has none.
pub open spec fn parent_dir(p: Seq<char>) -> Seq<char> {
    match last_slash(p) {
        Some(i) => p.subrange(0, i),
        None => p,
    }
}

proof fn lemma_last_slash_found(p: Seq<char>, i: int)
    requires
        0 <= i < p.len(),
        p[i] == '/',
        forall|j: int| i < j < p.len() ==> p[j] != '/',
    ensures
        last_slash(p) == Some(i),
    decreases p.len(),
{
    if i + 1 == p.len() {
    } else {
        assert(p.last() != '/');
        assert(p.drop_last()[i] == '/');
        lemma_last_slash_found(p.drop_last(), i);
    }
}

proof fn lemma_last_slash_none(p: Seq<char>)
    requires
        forall|j: int| 0 <= j < p.len() ==> p[j] != '/',
    ensures
        last_slash(p) is None,
    decreases p.len(),
{
    if p.len() > 0 {
        lemma_last_slash_none(p.drop_last());
    }
}

/// The directory a file location lives in.
pub fn get_folders(path: &str) -> (r: String)
    ensures
        r@ == parent_dir(path@),
{
    match crate::strutil::rfind_char(path, '/') {
        Some(i) => {
            proof {
                lemma_last_slash_found(path@, i as int);
            }
            String::from_str(path.substring_char(0, i))
        },
        None => {
            proof {
                lemma_last_slash_none(path@);
            }
            String::from_str(path.substring_char(0, path.unicode_len()))
        },
    }
}

/// The ancestor chain of a directory path: the prefix before each `/`, in
/// order, and the path itself last.
pub open spec fn check_prefixes(f: Seq<char>, i: int) -> Seq<Seq<char>>
    decreases f.len() - i
    when 0 <= i <= f.len()
{
    if i == f.len() {
        seq![f]
    } else if f[i] == '/' {
        seq![f.subrange(0, i)] + check_prefixes(f, i + 1)
    } else {
        check_prefixes(f, i + 1)
    }
}

/// The ancestor chain of a directory path, root first.
pub open spec fn folders_to_check_spec(f: Seq<char>) -> Seq<Seq<char>> {
    check_prefixes(f, 0)
}

/// The folders whose prior existence as a file must be checked before a
/// file below `folders` is written, root first, `folders` itself last.
pub fn get_folders_to_check(folders: &str) -> (r: Vec<String>)
    ensures
        r.deep_view() == folders_to_check_spec(folders@),
{
    let flen = folders.unicode_len();
    let mut out: Vec<String> = Vec::new();
    let mut i: usize = 0;
    while i < flen
        invariant
            flen == folders@.len(),
            i <= flen,
            folders_to_check_spec(folders@) == out.deep_view() + check_prefixes(
                folders@,
                i as int,
            ),
        decreases flen - i,
    {
        let ghost prev = out.deep_view();
        if folders.get_char(i) == '/' {
            let prefix = String::from_str(folders.substring_char(0, i));
            out.push(prefix);
            proof {
                assert(out.deep_view() =~= prev.push(folders@.subrange(0, i as int)));
                assert(out.deep_view() + check_prefixes(folders@, i + 1) =~= prev
                    + check_prefixes(folders@, i as int));
            }
        }
        i += 1;
    }
    let ghost prev = out.deep_view();
    let whole = String::from_str(folders.substring_char(0, flen));
    out.push(whole);
    proof {
        assert(folders@.subrange(0, flen as int) =~= folders@);
        assert(out.deep_view() =~= prev.push(folders@));
        assert(out.deep_view() =~= prev + check_prefixes(folders@, flen as int));
    }
    out
}

/// Some file in the list has exactly this path.
pub open spec fn contains_path(fs: Seq<Seq<char>>, p: Seq<char>) -> bool {
    exists|k: int| 0 <= k < fs.len() && fs[k] == p
}

/// Whether the file list holds exactly this path.
fn contains_str(files: &Vec<String>, s: &str) -> (r: bool)
    ensures
        r == contains_path(files.deep_view(), s@),
{
    let mut i: usize = 0;
    while i < files.len()
        invariant
            i <= files@.len(),
            forall|k: int| 0 <= k < i ==> files.deep_view()[k] != s@,
        decreases files@.len() - i,
    {
        if str_eq(files[i].as_str(), s) {
            assert(files.deep_view()[i as int] == s@);
            return true;
        }
        i += 1;
    }
    false
}

/// Removes every file with exactly this path from the list.
fn remove_path(files: &mut Vec<String>, s: &str)
    ensures
        !contains_path(final(files).deep_view(), s@),
        forall|p: Seq<char>|
            p != s@ ==> (contains_path(final(files).deep_view(), p) == contains_path(
                old(files).deep_view(),
                p,
            )),
{
    let mut kept: Vec<String> = Vec::new();
    let mut i: usize = 0;
    while i < files.len()
        invariant
            i <= files@.len(),
            files == old(files),
            !contains_path(kept.deep_view(), s@),
            forall|p: Seq<char>|
                p != s@ ==> (contains_path(kept.deep_view(), p) == (exists|k: int|
                    0 <= k < i && old(files).deep_view()[k] == p)),
        decreases files@.len() - i,
    {
        let ghost prev = kept.deep_view();
        assert(files.deep_view()[i as int] == files@[i as int]@);
        if !str_eq(files[i].as_str(), s) {
            let item = files[i].clone();
            assert(item@ == files.deep_view()[i as int]);
            kept.push(item);
            proof {
                assert(kept.deep_view() =~= prev.push(files.deep_view()[i as int]));
                assert forall|p: Seq<char>|
                    p != s@ implies (contains_path(kept.deep_view(), p) == (exists|k: int|
                    0 <= k < i + 1 && old(files).deep_view()[k] == p)) by {
                    if contains_path(kept.deep_view(), p) {
                        let k = choose|k: int|
                            0 <= k < kept.deep_view().len() && kept.deep_view()[k] == p;
                        if k < prev.len() {
                            assert(contains_path(prev, p));
                        } else {
                            assert(old(files).deep_view()[i as int] == p);
                        }
                    }
                    if exists|k: int| 0 <= k < i + 1 && old(files).deep_view()[k] == p {
                        let k = choose|k: int| 0 <= k < i + 1 && old(files).deep_view()[k] == p;
                        if k < i {
                            assert(contains_path(prev, p));
                            let m = choose|m: int| 0 <= m < prev.len() && prev[m] == p;
                            assert(kept.deep_view()[m] == p);
                        } else {
                            assert(kept.deep_view()[prev.len() as int] == p);
                        }
                    }
                }
            }
        } else {
            proof {
                assert(files.deep_view()[i as int] == s@);
                assert forall|p: Seq<char>|
                    p != s@ implies (contains_path(kept.deep_view(), p) == (exists|k: int|
                    0 <= k < i + 1 && old(files).deep_view()[k] == p)) by {
                    if exists|k: int| 0 <= k < i + 1 && old(files).deep_view()[k] == p {
                        let k = choose|k: int| 0 <= k < i + 1 && old(files).deep_view()[k] == p;
                        assert(k < i);
                    }
                }
            }
        }
        i += 1;
    }
    *files = kept;
}

/// A rewrite's target: the source path continued by `/index`.
pub open spec fn promoted(a: Seq<char>) -> Seq<char> {
    a + "/index"@
}

/// Lengths along the ancestor chain grow strictly.
proof fn lemma_check_prefixes_lengths(f: Seq<char>, i: int)
    requires
        0 <= i <= f.len(),
    ensures
        forall|a: int|
            0 <= a < check_prefixes(f, i).len() ==> i <= #[trigger] check_prefixes(f, i)[a].len()
                <= f.len(),
        forall|a: int, b: int|
            0 <= a < b < check_prefixes(f, i).len() ==> check_prefixes(f, i)[a].len()
                < check_prefixes(f, i)[b].len(),
    decreases f.len() - i,
{
    if i == f.len() {
    } else {
        lemma_check_prefixes_lengths(f, i + 1);
        let cur = check_prefixes(f, i);
        let tail = check_prefixes(f, i + 1);
        if f[i] == '/' {
            assert(cur == seq![f.subrange(0, i)] + tail);
            assert(cur[0].len() == i);
            assert forall|a: int| 0 <= a < cur.len() implies i <= #[trigger] cur[a].len()
                <= f.len() by {
                if a > 0 {
                    assert(cur[a] == tail[a - 1]);
                }
            }
            assert forall|a: int, b: int| 0 <= a < b < cur.len() implies cur[a].len()
                < cur[b].len() by {
                assert(cur[b] == tail[b - 1]);
                if a > 0 {
                    assert(cur[a] == tail[a - 1]);
                }
            }
        } else {
            assert(cur == tail);
            assert forall|a: int| 0 <= a < cur.len() implies i <= #[trigger] cur[a].len()
                <= f.len() by {
                assert(cur[a] == tail[a]);
            }
            assert forall|a: int, b: int| 0 <= a < b < cur.len() implies cur[a].len()
                < cur[b].len() by {
                assert(cur[a] == tail[a]);
                assert(cur[b] == tail[b]);
            }
        }
    }
}

/// The collision repair plan.
///
/// `files` lists the paths that currently exist as regular files; `folders`
/// is the directory chain a new file is about to be created under. Walking
/// the chain root first, every ancestor that exists as a file is promoted:
/// it leaves the file list, a rewrite from it to `<ancestor>/index` is
/// recorded, and the target joins the file list.
///
/// Path-tree consistency: afterwards no entry of the file list equals any
/// member of the ancestor chain, so the new file's directories can all be
/// created, and each rewrite's target is its source continued by `/index`.
pub fn plan_repair(files: &Vec<String>, folders: &str) -> (r: (Vec<(String, String)>, Vec<String>))
    ensures
        forall|idx: int|
            0 <= idx < r.0@.len() ==> (#[trigger] r.0@[idx].1)@ == promoted(r.0@[idx].0@),
        forall|j: int|
            0 <= j < folders_to_check_spec(folders@).len() ==> !contains_path(
                r.1.deep_view(),
                folders_to_check_spec(folders@)[j],
            ),
        forall|p: Seq<char>|
            contains_path(r.1.deep_view(), p) ==> (contains_path(files.deep_view(), p) || exists|
                idx: int,
            | 0 <= idx < r.0@.len() && (#[trigger] r.0@[idx].1)@ == p),
        forall|idx: int|
            0 <= idx < r.0@.len() ==> contains_path(
                folders_to_check_spec(folders@),
                (#[trigger] r.0@[idx].0)@,
            ),
        forall|p: Seq<char>|
            contains_path(files.deep_view(), p) && (forall|idx: int|
                0 <= idx < r.0@.len() ==> (#[trigger] r.0@[idx].0)@ != p) ==> contains_path(
                r.1.deep_view(),
                p,
            ),
{
    let checks = get_folders_to_check(folders);
    let ghost chain = folders_to_check_spec(folders@);
    proof {
        lemma_check_prefixes_lengths(folders@, 0);
        reveal_strlit("/index");
    }
    let mut rewrites: Vec<(String, String)> = Vec::new();
    let mut fs: Vec<String> = files.clone();
    proof {
        assert(fs.deep_view() =~= files.deep_view());
    }
    let mut c: usize = 0;
    while c < checks.len()
        invariant
            checks.deep_view() == chain,
            chain == folders_to_check_spec(folders@),
            c <= chain.len(),
            forall|a: int|
                0 <= a < chain.len() ==> 0 <= #[trigger] chain[a].len() <= folders@.len(),
            forall|a: int, b: int| 0 <= a < b < chain.len() ==> chain[a].len() < chain[b].len(),
            forall|idx: int|
                0 <= idx < rewrites@.len() ==> (#[trigger] rewrites@[idx].1)@ == promoted(
                    rewrites@[idx].0@,
                ) && rewrites@[idx].0@.len() <= folders@.len(),
            forall|j: int| 0 <= j < c ==> !contains_path(fs.deep_view(), chain[j]),
            forall|p: Seq<char>|
                contains_path(fs.deep_view(), p) ==> (contains_path(files.deep_view(), p)
                    || exists|idx: int|
                    0 <= idx < rewrites@.len() && (#[trigger] rewrites@[idx].1)@ == p),
            forall|idx: int|
                0 <= idx < rewrites@.len() ==> contains_path(
                    chain,
                    (#[trigger] rewrites@[idx].0)@,
                ),
            forall|p: Seq<char>|
                contains_path(files.deep_view(), p) && (forall|idx: int|
                    0 <= idx < rewrites@.len() ==> (#[trigger] rewrites@[idx].0)@ != p)
                    ==> contains_path(fs.deep_view(), p),
        decreases chain.len() - c,
    {
        let ancestor = &checks[c];
        assert(ancestor@ == chain[c as int]);
        if contains_str(&fs, ancestor.as_str()) {
            let ghost pre = fs.deep_view();
            let mut target = ancestor.clone();
            target.append("/index");
            assert(target@ == promoted(chain[c as int]));
            remove_path(&mut fs, ancestor.as_str());
            let ghost before = fs.deep_view();
            let ghost old_rewrites = rewrites@;
            fs.push(target.clone());
            rewrites.push((ancestor.clone(), target));
            proof {
                reveal_strlit("/index");
                let here = chain[c as int];
                let newfile = promoted(here);
                assert(fs.deep_view() =~= before.push(newfile));
                // The promoted path is longer than every chain member up to
                // and including the current one, so none of them reappears.
                assert(newfile.len() == here.len() + 6);
                assert forall|j: int| 0 <= j <= c implies !contains_path(
                    fs.deep_view(),
                    chain[j],
                ) by {
                    assert(chain[j].len() <= here.len());
                    assert(chain[j] != newfile);
                    assert(!contains_path(before, chain[j]));
                    if contains_path(fs.deep_view(), chain[j]) {
                        let k = choose|k: int|
                            0 <= k < fs.deep_view().len() && fs.deep_view()[k] == chain[j];
                        assert(k < before.len() ==> contains_path(before, chain[j]));
                    }
                }
                assert forall|p: Seq<char>|
                    contains_path(fs.deep_view(), p) implies (contains_path(
                    files.deep_view(),
                    p,
                ) || exists|idx: int|
                    0 <= idx < rewrites@.len() && (#[trigger] rewrites@[idx].1)@ == p) by {
                    if p == newfile {
                        assert(rewrites@[rewrites@.len() - 1].1@ == p);
                    } else {
                        let k = choose|k: int|
                            0 <= k < fs.deep_view().len() && fs.deep_view()[k] == p;
                        assert(k < before.len());
                        assert(contains_path(before, p));
                        if p == here {
                            assert(!contains_path(before, p));
                        }
                        assert(contains_path(pre, p));
                        assert(contains_path(files.deep_view(), p) || exists|idx: int|
                            0 <= idx < old_rewrites.len() && (#[trigger] old_rewrites[idx].1)@
                                == p);
                        assert forall|idx: int|
                            0 <= idx < old_rewrites.len() && (#[trigger] old_rewrites[idx].1)@
                                == p implies exists|idx2: int|
                            0 <= idx2 < rewrites@.len() && (#[trigger] rewrites@[idx2].1)@
                                == p by {
                            assert(rewrites@[idx].1@ == p);
                        }
                    }
                }
                // The new rewrite's source is the current chain member.
                assert forall|idx: int|
                    0 <= idx < rewrites@.len() implies contains_path(
                    chain,
                    (#[trigger] rewrites@[idx].0)@,
                ) by {
                    if idx < old_rewrites.len() {
                        assert(rewrites@[idx].0 == old_rewrites[idx].0);
                        assert(contains_path(chain, old_rewrites[idx].0@));
                    } else {
                        assert(chain[c as int] == rewrites@[idx].0@);
                    }
                }
                // Files that are no rewrite's source survive the promotion.
                assert forall|p: Seq<char>|
                    contains_path(files.deep_view(), p) && (forall|idx: int|
                        0 <= idx < rewrites@.len() ==> (#[trigger] rewrites@[idx].0)@
                            != p) implies contains_path(fs.deep_view(), p) by {
                    assert(rewrites@[rewrites@.len() - 1].0@ == here);
                    assert(p != here);
                    assert forall|idx: int|
                        0 <= idx < old_rewrites.len() implies (#[trigger] old_rewrites[idx].0)@
                            != p by {
                        assert(rewrites@[idx].0 == old_rewrites[idx].0);
                    }
                    assert(contains_path(pre, p));
                    assert(contains_path(before, p));
                    let k = choose|k: int| 0 <= k < before.len() && before[k] == p;
                    assert(fs.deep_view()[k] == p);
                }
            }
        }
        c += 1;
    }
    let ghost gfs = fs.deep_view();
    let ghost grew = rewrites@;
    let result = (rewrites, fs);
    proof {
        assert(result.1.deep_view() == gfs);
        assert(result.0@ == grew);
        assert forall|p: Seq<char>|
            contains_path(result.1.deep_view(), p) && !contains_path(
                files.deep_view(),
                p,
            ) implies exists|idx: int|
            0 <= idx < result.0@.len() && (#[trigger] result.0@[idx].1)@ == p by {
            let idx = choose|idx: int| 0 <= idx < grew.len() && (#[trigger] grew[idx].1)@ == p;
            assert(result.0@[idx].1@ == p);
        }
        assert forall|idx: int|
            0 <= idx < result.0@.len() implies contains_path(
            folders_to_check_spec(folders@),
            (#[trigger] result.0@[idx].0)@,
        ) by {
            assert(result.0@[idx].0 == grew[idx].0);
            assert(contains_path(chain, grew[idx].0@));
        }
        assert forall|p: Seq<char>|
            contains_path(files.deep_view(), p) && (forall|idx: int|
                0 <= idx < result.0@.len() ==> (#[trigger] result.0@[idx].0)@
                    != p) implies contains_path(result.1.deep_view(), p) by {
            assert forall|idx: int|
                0 <= idx < grew.len() implies (#[trigger] grew[idx].0)@ != p by {
                assert(result.0@[idx].0 == grew[idx].0);
            }
            assert(contains_path(gfs, p));
        }
    }
    result
}

/// A path `a` is a directory ancestor of `p`: `p` starts with `a` followed
/// by a path separator.
pub open spec fn dir_ancestor(a: Seq<char>, p: Seq<char>) -> bool {
    starts_with(p, a + "/"@)
}

/// Every directory ancestor of a path below `f` stands in `f`'s ancestor
/// chain.
proof fn lemma_chain_has_cut(f: Seq<char>, i: int, c: int)
    requires
        0 <= i <= c < f.len(),
        f[c] == '/',
    ensures
        contains_path(check_prefixes(f, i), f.subrange(0, c)),
    decreases f.len() - i,
{
    if i == c {
        assert(check_prefixes(f, i)[0] == f.subrange(0, c));
    } else {
        lemma_chain_has_cut(f, i + 1, c);
        let tail = check_prefixes(f, i + 1);
        let k = choose|k: int| 0 <= k < tail.len() && tail[k] == f.subrange(0, c);
        if f[i] == '/' {
            assert(check_prefixes(f, i)[k + 1] == f.subrange(0, c));
        }
    }
}

/// The chain ends with the full path.
proof fn lemma_chain_has_whole(f: Seq<char>, i: int)
    requires
        0 <= i <= f.len(),
    ensures
        contains_path(check_prefixes(f, i), f),
    decreases f.len() - i,
{
    if i == f.len() {
        assert(check_prefixes(f, i)[0] == f);
    } else {
        lemma_chain_has_whole(f, i + 1);
        let tail = check_prefixes(f, i + 1);
        let k = choose|k: int| 0 <= k < tail.len() && tail[k] == f;
        if f[i] == '/' {
            assert(check_prefixes(f, i)[k + 1] == f);
        }
    }
}

/// Path-tree consistency: after the collision repair for a new file at
/// `folders + "/" + name`, no remaining file is a directory ancestor of the
/// new file. In particular, a catalog whose resources are all files on disk
/// has no route whose resource is an ancestor directory of the new one.
pub proof fn lemma_path_tree_consistency(
    fs_after: Seq<Seq<char>>,
    folders: Seq<char>,
    name: Seq<char>,
    p: Seq<char>,
)
    requires
        forall|j: int|
            0 <= j < folders_to_check_spec(folders).len() ==> !contains_path(
                fs_after,
                folders_to_check_spec(folders)[j],
            ),
        forall|l: int| 0 <= l < name.len() ==> name[l] != '/',
        contains_path(fs_after, p),
    ensures
        !dir_ancestor(p, folders + "/"@ + name),
{
    reveal_strlit("/");
    let target = folders + "/"@ + name;
    if dir_ancestor(p, target) {
        let c = p.len() as int;
        assert(target.subrange(0, c + 1) == p + "/"@);
        assert(target.subrange(0, c + 1)[c] == target[c]);
        assert((p + "/"@)[c] == '/');
        assert(target[c] == '/');
        assert forall|l: int| 0 <= l < c implies p[l] == target[l] by {
            assert(target.subrange(0, c + 1)[l] == target[l]);
            assert((p + "/"@)[l] == p[l]);
        }
        if c < folders.len() {
            assert(folders[c] == '/');
            assert(p =~= folders.subrange(0, c));
            lemma_chain_has_cut(folders, 0, c);
            let j = choose|j: int|
                0 <= j < folders_to_check_spec(folders).len() && folders_to_check_spec(folders)[j]
                    == p;
            assert(!contains_path(fs_after, p));
        } else if c == folders.len() {
            assert(p =~= folders);
            lemma_chain_has_whole(folders, 0);
            assert(!contains_path(fs_after, p));
        } else {
            assert(target[c] == name[c - folders.len() - 1]);
            assert(name[c - folders.len() - 1] != '/');
        }
    }
}

/// What one resource rewrite does to the route list: the first route with
/// this method whose resource is `from` is pointed at `to`, everything else
/// stays as it was; with no such route the list is unchanged.
pub open spec fn rewrite_applied(
    before: Seq<Route>,
    after: Seq<Route>,
    from: Seq<char>,
    to: Seq<char>,
    m: RouteMethod,
) -> bool {
    &&& after.len() == before.len()
    &&& ((exists|i: int|
        #![auto]
        resource_match_at(before, from, m, i) && (forall|j: int|
            0 <= j < i ==> !resource_match_at(before, from, m, j)) && (
        after[i].resource matches Some(res) && res@ == to) && after[i].method == before[i].method
            && after[i].path == before[i].path && after[i].metadata == before[i].metadata
            && after[i].messages == before[i].messages && (forall|l: int|
            0 <= l < before.len() && l != i ==> after[l] == before[l])) || ((forall|i: int|
        0 <= i < before.len() ==> !resource_match_at(before, from, m, i)) && after == before))
}

/// A list of rewrites applied in order, each to the outcome of the one
/// before it.
pub open spec fn rewrites_applied(
    before: Seq<Route>,
    after: Seq<Route>,
    rewrites: Seq<(Seq<char>, Seq<char>)>,
    m: RouteMethod,
) -> bool
    decreases rewrites.len(),
{
    if rewrites.len() == 0 {
        after == before
    } else {
        exists|mid: Seq<Route>|
            #![trigger rewrite_applied(mid, after, rewrites.last().0, rewrites.last().1, m)]
            rewrites_applied(before, mid, rewrites.drop_last(), m) && rewrite_applied(
                mid,
                after,
                rewrites.last().0,
                rewrites.last().1,
                m,
            )
    }
}

/// Extending an applied rewrite list by one more applied rewrite.
proof fn lemma_rewrites_applied_snoc(
    before: Seq<Route>,
    mid: Seq<Route>,
    after: Seq<Route>,
    rewrites: Seq<(Seq<char>, Seq<char>)>,
    m: RouteMethod,
)
    requires
        rewrites.len() >= 1,
        rewrites_applied(before, mid, rewrites.drop_last(), m),
        rewrite_applied(mid, after, rewrites.last().0, rewrites.last().1, m),
    ensures
        rewrites_applied(before, after, rewrites, m),
{
    assert(exists|x: Seq<Route>|
        #![auto]
        rewrites_applied(before, x, rewrites.drop_last(), m) && rewrite_applied(
            x,
            after,
            rewrites.last().0,
            rewrites.last().1,
            m,
        )) by {
        assert(rewrites_applied(before, mid, rewrites.drop_last(), m) && rewrite_applied(
            mid,
            after,
            rewrites.last().0,
            rewrites.last().1,
            m,
        ));
    }
}

/// Points the first route carrying resource `from` (with this method) at
/// `to` instead; leaves the catalog unchanged when no route carries it.
pub fn apply_rewrite(config: &mut Configuration, from: &str, to: &str, method: &RouteMethod)
    ensures
        final(config).host == old(config).host,
        final(config).remote == old(config).remote,
        final(config).build_mode == old(config).build_mode,
        rewrite_applied(old(config).routes@, final(config).routes@, from@, to@, *method),
        forall|i: int|
            0 <= i < old(config).routes@.len() ==> {
                &&& (#[trigger] final(config).routes@[i]).method == old(config).routes@[i].method
                &&& final(config).routes@[i].path == old(config).routes@[i].path
                &&& final(config).routes@[i].metadata == old(config).routes@[i].metadata
                &&& final(config).routes@[i].messages == old(config).routes@[i].messages
            },
{
    match config.get_route_by_resource_mut(from, method) {
        Some(i) => {
            let route = &mut config.routes[i];
            route.resource = Some(String::from_str(to));
        },
        None => {},
    }
}

/// Applies every rewrite the collision repair reported, in order. Route
/// paths, methods, metadata and scripts are untouched, so catalog
/// uniqueness survives.
pub fn apply_rewrites(
    config: &mut Configuration,
    rewrites: &Vec<(String, String)>,
    method: &RouteMethod,
)
    ensures
        final(config).host == old(config).host,
        final(config).remote == old(config).remote,
        final(config).build_mode == old(config).build_mode,
        final(config).routes@.len() == old(config).routes@.len(),
        rewrites_applied(
            old(config).routes@,
            final(config).routes@,
            rewrites.deep_view(),
            *method,
        ),
        forall|i: int|
            0 <= i < old(config).routes@.len() ==> {
                &&& (#[trigger] final(config).routes@[i]).method == old(config).routes@[i].method
                &&& final(config).routes@[i].path == old(config).routes@[i].path
            },
        old(config).wf() ==> final(config).wf(),
{
    let ghost views = rewrites.deep_view();
    let mut r: usize = 0;
    while r < rewrites.len()
        invariant
            views == rewrites.deep_view(),
            r <= rewrites@.len(),
            views.len() == rewrites@.len(),
            config.host == old(config).host,
            config.remote == old(config).remote,
            config.build_mode == old(config).build_mode,
            config.routes@.len() == old(config).routes@.len(),
            rewrites_applied(
                old(config).routes@,
                config.routes@,
                views.subrange(0, r as int),
                *method,
            ),
            forall|i: int|
                0 <= i < old(config).routes@.len() ==> {
                    &&& (#[trigger] config.routes@[i]).method == old(config).routes@[i].method
                    &&& config.routes@[i].path == old(config).routes@[i].path
                },
        decreases rewrites@.len() - r,
    {
        let ghost mid = config.routes@;
        let (from, to) = (&rewrites[r].0, &rewrites[r].1);
        assert(from@ == views[r as int].0 && to@ == views[r as int].1);
        apply_rewrite(config, from.as_str(), to.as_str(), method);
        proof {
            let done = views.subrange(0, r + 1);
            assert(done.drop_last() =~= views.subrange(0, r as int));
            assert(done.last() == views[r as int]);
            lemma_rewrites_applied_snoc(old(config).routes@, mid, config.routes@, done, *method);
        }
        r += 1;
    }
    proof {
        assert(views.subrange(0, views.len() as int) =~= views);
    }
}

} // verus!
