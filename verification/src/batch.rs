//! Input entries of a batch: what discovery found, in the order the batch
//! processes them.

use vstd::prelude::*;
use crate::paths::{path_component_texts, strings_view, component_texts, path_join, path_strip_prefix, strip_prefix, join};
use crate::text::{lower, lower_eq, chars_of, string_from};
use crate::paths::{opt_str, clone_opt_str, components, comps_less, comps_lt, comps_view, path_components, lemma_comps_lt_order, PathComp, CompView};

verus! {

/// One input file of the batch.
#[derive(Debug, Clone)]
pub struct InputEntry {
    pub path: String,
    /// Walked root used for directory mirroring (dir inputs: the dir itself;
    /// glob inputs: the static prefix; plain files: none).
    pub root: Option<String>,
    /// 1-based index in the sorted batch, usable as `{index}` in templates.
    pub index: usize,
}

/// The content of an [`InputEntry`].
pub struct EntryView {
    pub path: Seq<char>,
    pub root: Option<Seq<char>>,
    pub index: usize,
}

impl View for InputEntry {
    type V = EntryView;

    open spec fn view(&self) -> EntryView {
        EntryView { path: self.path@, root: opt_str(self.root), index: self.index }
    }
}

/// Whether `s` holds a glob metacharacter: `*`, `?`, `[` or `{`.
pub open spec fn glob_meta(s: Seq<char>) -> bool {
    s.contains('*') || s.contains('?') || s.contains('[') || s.contains('{')
}

pub fn has_glob_meta(s: &str) -> (b: bool)
    ensures
        b == glob_meta(s@),
{
    let v = crate::text::chars_of(s);
    let mut i: usize = 0;
    while i < v.len()
        invariant
            i <= v.len(),
            v@ == s@,
            forall|k: int| 0 <= k < i ==> v@[k] != '*' && v@[k] != '?' && v@[k] != '[' && v@[k] != '{',
        decreases v.len() - i,
    {
        let c = v[i];
        if c == '*' || c == '?' || c == '[' || c == '{' {
            assert(s@.contains(c));
            return true;
        }
        i = i + 1;
    }
    proof {
        assert(!s@.contains('*'));
        assert(!s@.contains('?'));
        assert(!s@.contains('['));
        assert(!s@.contains('{'));
    }
    false
}


/// A found file: its path and the root it was found under.
pub open spec fn found_view(f: (String, Option<String>)) -> (Seq<char>, Option<Seq<char>>) {
    (f.0@, opt_str(f.1))
}

pub open spec fn founds_view(v: Seq<(String, Option<String>)>) -> Seq<(Seq<char>, Option<Seq<char>>)> {
    v.map_values(|f: (String, Option<String>)| found_view(f))
}

pub open spec fn entries_found(v: Seq<InputEntry>) -> Seq<(Seq<char>, Option<Seq<char>>)> {
    v.map_values(|e: InputEntry| (e.path@, opt_str(e.root)))
}

/// Whether the entries are in path order (`Path`'s order of components).
pub open spec fn path_sorted(v: Seq<InputEntry>) -> bool {
    forall|i: int, j: int| 0 <= i < j < v.len() ==> !comps_lt(
        path_components(#[trigger] v[j].path@),
        path_components(#[trigger] v[i].path@),
    )
}

spec fn keyed_view(x: (Vec<PathComp>, String, Option<String>)) -> (Seq<char>, Option<Seq<char>>) {
    (x.1@, opt_str(x.2))
}

spec fn keyeds_view(v: Seq<(Vec<PathComp>, String, Option<String>)>) -> Seq<(Seq<char>, Option<Seq<char>>)> {
    v.map_values(|x: (Vec<PathComp>, String, Option<String>)| keyed_view(x))
}

spec fn keyed_sorted(v: Seq<(Vec<PathComp>, String, Option<String>)>) -> bool {
    forall|i: int, j: int| 0 <= i < j < v.len() ==> !comps_lt(comps_view((#[trigger] v[j]).0@), comps_view((#[trigger] v[i]).0@))
}

/// Where a file goes among files already in path order: after every file
/// whose path does not come after its own.
pub open spec fn insert_at(s: Seq<(Seq<char>, Option<Seq<char>>)>, k: Seq<CompView>) -> int
    decreases s.len(),
{
    if s.len() == 0 {
        0
    } else if comps_lt(k, path_components(s[0].0)) {
        0
    } else {
        1 + insert_at(s.drop_first(), k)
    }
}

/// The found files in path order; files whose paths compare equal stay in
/// the order they were found in (a stable sort).
pub open spec fn path_order(v: Seq<(Seq<char>, Option<Seq<char>>)>) -> Seq<(Seq<char>, Option<Seq<char>>)>
    decreases v.len(),
{
    if v.len() == 0 {
        Seq::empty()
    } else {
        let s = path_order(v.drop_last());
        s.insert(insert_at(s, path_components(v.last().0)), v.last())
    }
}

/// Puts the found files in path order (stable: files whose paths compare
/// equal keep the order they were found in) and numbers them from 1.
pub fn order_entries(found: Vec<(String, Option<String>)>) -> (out: Vec<InputEntry>)
    ensures
        out@.len() == found@.len(),
        entries_found(out@) == path_order(founds_view(found@)),
        entries_found(out@).to_multiset() == founds_view(found@).to_multiset(),
        path_sorted(out@),
        forall|i: int| 0 <= i < out@.len() ==> (#[trigger] out@[i]).index == i + 1,
{
    let mut sorted: Vec<(Vec<PathComp>, String, Option<String>)> = Vec::new();
    let mut n: usize = 0;
    proof {
        assert(keyeds_view(sorted@) =~= founds_view(found@.take(0)));
    }
    while n < found.len()
        invariant
            n <= found.len(),
            sorted@.len() == n,
            forall|i: int| 0 <= i < sorted@.len() ==> comps_view((#[trigger] sorted@[i]).0@) == path_components(sorted@[i].1@),
            keyed_sorted(sorted@),
            keyeds_view(sorted@).to_multiset() == founds_view(found@.take(n as int)).to_multiset(),
            keyeds_view(sorted@) == path_order(founds_view(found@.take(n as int))),
        decreases found.len() - n,
    {
        let path = found[n].0.clone();
        let root = clone_opt_str(&found[n].1);
        let key = components(path.as_str());
        let ghost kv = keyeds_view(sorted@);
        let mut p: usize = 0;
        proof {
            assert(kv.skip(0) =~= kv);
        }
        while p < sorted.len() && !comps_less(&key, &sorted[p].0)
            invariant
                p <= sorted@.len(),
                kv == keyeds_view(sorted@),
                forall|i: int| 0 <= i < sorted@.len() ==> comps_view((#[trigger] sorted@[i]).0@) == path_components(sorted@[i].1@),
                forall|i: int| 0 <= i < p ==> !comps_lt(comps_view(key@), comps_view((#[trigger] sorted@[i]).0@)),
                insert_at(kv, comps_view(key@)) == p + insert_at(kv.skip(p as int), comps_view(key@)),
            decreases sorted.len() - p,
        {
            proof {
                assert(kv.skip(p as int)[0] == keyed_view(sorted@[p as int]));
                assert(kv.skip(p as int).drop_first() =~= kv.skip(p + 1));
            }
            p = p + 1;
        }
        proof {
            if p < sorted@.len() {
                assert(kv.skip(p as int)[0] == keyed_view(sorted@[p as int]));
            } else {
                assert(kv.skip(p as int) =~= Seq::<(Seq<char>, Option<Seq<char>>)>::empty());
            }
            assert(insert_at(kv, comps_view(key@)) == p);
        }
        let ghost s = sorted@;
        let ghost x = (key, path, root);
        let ghost kx = comps_view(key@);
        sorted.insert(p, (key, path, root));
        proof {
            assert(sorted@ == s.insert(p as int, x));
            assert forall|i: int, j: int| 0 <= i < j < sorted@.len() implies !comps_lt(
                comps_view((#[trigger] sorted@[j]).0@),
                comps_view((#[trigger] sorted@[i]).0@),
            ) by {
                if j < p {
                } else if j == p {
                    assert(sorted@[j] == x);
                    assert(sorted@[i] == s[i]);
                } else if i < p {
                    assert(sorted@[j] == s[j - 1]);
                    assert(sorted@[i] == s[i]);
                } else if i == p {
                    assert(sorted@[j] == s[j - 1]);
                    assert(sorted@[i] == x);
                    lemma_comps_lt_order(comps_view(s[j - 1].0@), kx, comps_view(s[p as int].0@));
                    lemma_comps_lt_order(kx, kx, kx);
                    lemma_comps_lt_order(comps_view(s[j - 1].0@), comps_view(s[j - 1].0@), comps_view(s[j - 1].0@));
                } else {
                    assert(sorted@[j] == s[j - 1]);
                    assert(sorted@[i] == s[i - 1]);
                }
            }
            assert forall|i: int| 0 <= i < sorted@.len() implies comps_view((#[trigger] sorted@[i]).0@) == path_components(sorted@[i].1@) by {
                if i < p {
                    assert(sorted@[i] == s[i]);
                } else if i > p {
                    assert(sorted@[i] == s[i - 1]);
                }
            }
            assert(keyeds_view(sorted@) =~= keyeds_view(s).insert(p as int, keyed_view(x)));
            assert(found@.take(n + 1) =~= found@.take(n as int).push(found@[n as int]));
            assert(founds_view(found@.take(n + 1)) =~= founds_view(found@.take(n as int)).push(found_view(found@[n as int])));
            assert(keyed_view(x) == found_view(found@[n as int]));
            vstd::seq_lib::to_multiset_insert(keyeds_view(s), p as int, keyed_view(x));
            vstd::seq_lib::to_multiset_build(founds_view(found@.take(n as int)), found_view(found@[n as int]));
            let fv = founds_view(found@.take(n + 1));
            assert(fv.drop_last() =~= founds_view(found@.take(n as int)));
            assert(fv.last() == found_view(found@[n as int]));
            assert(path_components(fv.last().0) == kx);
        }
        n = n + 1;
    }
    assert(found@.take(found@.len() as int) =~= found@);
    let mut out: Vec<InputEntry> = Vec::new();
    let mut i: usize = 0;
    while i < sorted.len()
        invariant
            i <= sorted@.len(),
            out@.len() == i,
            forall|k: int| 0 <= k < sorted@.len() ==> comps_view((#[trigger] sorted@[k]).0@) == path_components(sorted@[k].1@),
            forall|k: int| 0 <= k < i ==> (#[trigger] out@[k]).index == k + 1 && out@[k].path@ == sorted@[k].1@
                && opt_str(out@[k].root) == opt_str(sorted@[k].2),
        decreases sorted.len() - i,
    {
        out.push(InputEntry { path: sorted[i].1.clone(), root: clone_opt_str(&sorted[i].2), index: i + 1 });
        i = i + 1;
    }
    proof {
        assert(entries_found(out@) =~= keyeds_view(sorted@));
        assert forall|a: int, b: int| 0 <= a < b < out@.len() implies !comps_lt(
            path_components(#[trigger] out@[b].path@),
            path_components(#[trigger] out@[a].path@),
        ) by {
            assert(!comps_lt(comps_view(sorted@[b].0@), comps_view(sorted@[a].0@)));
        }
    }
    out
}


// ---------------------------------------------------------------- discovery rules

/// The walk root of a glob pattern: its leading components up to the first
/// that holds a glob metacharacter, joined; `.` when there are none.
pub open spec fn glob_root_from(root: Seq<char>, comps: Seq<Seq<char>>) -> Seq<char>
    decreases comps.len(),
{
    if comps.len() == 0 || glob_meta(comps[0]) {
        root
    } else {
        glob_root_from(path_join(root, comps[0]), comps.drop_first())
    }
}

pub open spec fn static_glob_root_spec(pattern: Seq<char>) -> Seq<char> {
    let r = glob_root_from(""@, path_component_texts(pattern));
    if r.len() == 0 { "."@ } else { r }
}

/// The non-glob leading path components of a pattern, used as walk root.
pub fn static_glob_root(pattern: &str) -> (r: String)
    ensures
        r@ == static_glob_root_spec(pattern@),
{
    let comps = component_texts(pattern);
    let mut root = String::new();
    let mut i: usize = 0;
    proof {
        reveal_strlit("");
        assert(""@ =~= root@);
        assert(strings_view(comps@).skip(0) =~= strings_view(comps@));
    }
    while i < comps.len()
        invariant
            i <= comps@.len(),
            glob_root_from(root@, strings_view(comps@).skip(i as int)) == glob_root_from(""@, path_component_texts(pattern@)),
            strings_view(comps@) == path_component_texts(pattern@),
        ensures
            glob_root_from(""@, path_component_texts(pattern@)) == root@,
        decreases comps.len() - i,
    {
        let ghost rest = strings_view(comps@).skip(i as int);
        assert(rest[0] == comps@[i as int]@);
        if has_glob_meta(comps[i].as_str()) {
            assert(glob_root_from(root@, rest) == root@);
            break;
        }
        root = join(root.as_str(), comps[i].as_str());
        assert(rest.drop_first() =~= strings_view(comps@).skip(i + 1));
        i = i + 1;
        proof {
            if i == comps.len() {
                assert(strings_view(comps@).skip(i as int) =~= Seq::<Seq<char>>::empty());
            }
        }
    }
    if root.as_str().is_empty() {
        string_from(".")
    } else {
        root
    }
}

/// Whether `glob` is a valid glob pattern, and the message of the error
/// when it is not: that of `globset::GlobBuilder::build`, or of
/// `GlobSetBuilder::build` over the one pattern (which reports a regex
/// beyond the size limit).
pub uninterp spec fn glob_build_error(glob: Seq<char>) -> Option<Seq<char>>;

/// Whether the set of the one compiled pattern `glob` matches `path`.
pub uninterp spec fn glob_match_spec(glob: Seq<char>, path: Seq<char>) -> bool;

/// The longest glob pattern this library matches with. globset matches
/// literal parts of a pattern with `aho_corasick`, whose automaton is built
/// with `unwrap` and fails only past about 2^31 states; a pattern of at most
/// this many characters stays far below that.
pub open spec fn glob_max_len() -> nat {
    65536
}

/// `globset::GlobBuilder::new(glob)` with `literal_separator(true)`,
/// `build`, then `GlobSetBuilder::new().add(..).build()`: the error's text
/// when either fails.
#[verifier::external_body]
fn glob_check(glob: &str) -> (r: Option<String>)
    ensures
        opt_str(r) == glob_build_error(glob@),
{
    globset::GlobBuilder::new(glob).literal_separator(true).build()
        .and_then(|g| globset::GlobSetBuilder::new().add(g).build())
        .err().map(|e| e.to_string())
}

/// The same builders, then `GlobSet::is_match(path)`. A set of one pattern
/// matches what the pattern's own matcher does, but reports a regex beyond
/// the size limit as a build error where `Glob::compile_matcher` panics;
/// `requires` leaves out patterns that do not build and patterns longer than
/// [`glob_max_len`].
#[verifier::external_body]
fn glob_matches(glob: &str, path: &str) -> (r: bool)
    requires
        glob_build_error(glob@) is None,
        glob@.len() <= glob_max_len(),
    ensures
        r == glob_match_spec(glob@, path@),
{
    let g = globset::GlobBuilder::new(glob).literal_separator(true).build().expect("valid glob");
    globset::GlobSetBuilder::new().add(g).build().expect("valid glob set").is_match(path)
}

/// The message for a glob pattern that does not build.
pub open spec fn glob_error_message(e: Seq<char>) -> Seq<char> {
    "invalid glob pattern: "@ + e
}

/// Checks a glob pattern; `Err` carries the message reported for it.
pub fn check_glob(glob: &str) -> (r: Result<(), String>)
    ensures
        r is Ok <==> glob_build_error(glob@) is None,
        r matches Err(m) ==> m@ == glob_error_message(glob_build_error(glob@)->0),
{
    match glob_check(glob) {
        None => Ok(()),
        Some(e) => {
            let mut m = string_from("invalid glob pattern: ");
            m.append(e.as_str());
            Err(m)
        },
    }
}

/// The path a glob pattern is matched against: with the walk root `.`,
/// the leading `./` of the walked path is removed, so that `*.jpg` matches
/// `./a.jpg`.
pub open spec fn glob_candidate(root: Seq<char>, path: Seq<char>) -> Seq<char> {
    if root == "."@ {
        match path_strip_prefix(path, "."@) {
            Some(r) => r,
            None => path,
        }
    } else {
        path
    }
}

/// Whether a file found walking the root of `glob` is selected by it.
pub(crate) fn glob_selects(glob: &str, root: &str, path: &str) -> (b: bool)
    requires
        glob_build_error(glob@) is None,
        glob@.len() <= glob_max_len(),
    ensures
        b == glob_match_spec(glob@, glob_candidate(root@, path@)),
{
    let rv = chars_of(root);
    proof {
        reveal_strlit(".");
    }
    if rv.len() == 1 && rv[0] == '.' {
        assert(root@ =~= "."@);
        match strip_prefix(path, ".") {
            Some(r) => glob_matches(glob, r.as_str()),
            None => glob_matches(glob, path),
        }
    } else {
        assert(root@ != "."@);
        glob_matches(glob, path)
    }
}

/// The files, of those found walking the root of `glob`, that it selects.
pub open spec fn glob_filter(glob: Seq<char>, root: Seq<char>, paths: Seq<Seq<char>>) -> Seq<Seq<char>>
    decreases paths.len(),
{
    if paths.len() == 0 {
        Seq::empty()
    } else {
        let rest = glob_filter(glob, root, paths.drop_last());
        if glob_match_spec(glob, glob_candidate(root, paths.last())) {
            rest.push(paths.last())
        } else {
            rest
        }
    }
}

/// Picks the files that a glob pattern selects among those found walking
/// its root; `Err` carries the message for a pattern that does not build.
pub fn glob_pick(glob: &str, root: &str, paths: &Vec<String>) -> (r: Result<Vec<String>, String>)
    requires
        glob@.len() <= glob_max_len(),
    ensures
        r is Ok <==> glob_build_error(glob@) is None,
        r matches Ok(v) ==> strings_view(v@) == glob_filter(glob@, root@, strings_view(paths@)),
        r matches Err(m) ==> m@ == glob_error_message(glob_build_error(glob@)->0),
{
    if let Err(m) = check_glob(glob) {
        return Err(m);
    }
    let mut out: Vec<String> = Vec::new();
    let mut i: usize = 0;
    proof {
        assert(strings_view(paths@).take(0) =~= Seq::<Seq<char>>::empty());
        assert(strings_view(out@) =~= Seq::<Seq<char>>::empty());
    }
    while i < paths.len()
        invariant
            i <= paths@.len(),
            glob_build_error(glob@) is None,
            glob@.len() <= glob_max_len(),
            strings_view(out@) == glob_filter(glob@, root@, strings_view(paths@).take(i as int)),
        decreases paths.len() - i,
    {
        let ghost t = strings_view(paths@).take(i + 1);
        assert(t.drop_last() =~= strings_view(paths@).take(i as int));
        assert(t.last() == paths@[i as int]@);
        if glob_selects(glob, root, paths[i].as_str()) {
            let ghost before = out@;
            out.push(paths[i].clone());
            assert(strings_view(out@) =~= strings_view(before).push(paths@[i as int]@));
        }
        i = i + 1;
    }
    assert(strings_view(paths@).take(paths@.len() as int) =~= strings_view(paths@));
    Ok(out)
}

/// The extensions a directory walk picks up (any ASCII case).
pub open spec fn supported_extension(ext: Seq<char>) -> bool {
    let l = lower(ext);
    l == "jpg"@ || l == "jpeg"@ || l == "png"@ || l == "webp"@ || l == "avif"@ || l == "gif"@ || l == "bmp"@
        || l == "tiff"@ || l == "tif"@ || l == "tga"@ || l == "ico"@ || l == "pnm"@ || l == "pgm"@ || l == "ppm"@
        || l == "pbm"@ || l == "pam"@
}

/// Whether a file found walking an input directory is taken: its extension
/// is one the decoders read.
pub fn is_supported(path: &str) -> (b: bool)
    ensures
        b == (crate::pipeline::path_extension(path@) matches Some(e) && supported_extension(e)),
{
    match crate::pipeline::extension_of(path) {
        None => false,
        Some(e) => {
            let v = chars_of(e.as_str());
            let n = v.len();
            assert(v@.subrange(0, n as int) =~= v@);
            lower_eq(&v, 0, n, "jpg") || lower_eq(&v, 0, n, "jpeg") || lower_eq(&v, 0, n, "png")
                || lower_eq(&v, 0, n, "webp") || lower_eq(&v, 0, n, "avif") || lower_eq(&v, 0, n, "gif")
                || lower_eq(&v, 0, n, "bmp") || lower_eq(&v, 0, n, "tiff") || lower_eq(&v, 0, n, "tif")
                || lower_eq(&v, 0, n, "tga") || lower_eq(&v, 0, n, "ico") || lower_eq(&v, 0, n, "pnm")
                || lower_eq(&v, 0, n, "pgm") || lower_eq(&v, 0, n, "ppm") || lower_eq(&v, 0, n, "pbm")
                || lower_eq(&v, 0, n, "pam")
        },
    }
}

/// The extensions a directory walk takes, in any ASCII case, are exactly
/// jpg, jpeg, png, webp, avif, gif, bmp, tiff, tif, tga, ico, pnm, pgm, ppm,
/// pbm and pam: a file is taken if and only if its extension, lower-cased,
/// is one of them.
pub proof fn lemma_supported_extensions(path: Seq<char>, ext: Seq<char>)
    ensures
        supported_extension(ext) <==> set![
            "jpg"@, "jpeg"@, "png"@, "webp"@, "avif"@, "gif"@, "bmp"@, "tiff"@,
            "tif"@, "tga"@, "ico"@, "pnm"@, "pgm"@, "ppm"@, "pbm"@, "pam"@,
        ].contains(lower(ext)),
        crate::pipeline::path_extension(path) == Some(ext) ==> (
            (crate::pipeline::path_extension(path) matches Some(e) && supported_extension(e))
            <==> set![
                "jpg"@, "jpeg"@, "png"@, "webp"@, "avif"@, "gif"@, "bmp"@, "tiff"@,
                "tif"@, "tga"@, "ico"@, "pnm"@, "pgm"@, "ppm"@, "pbm"@, "pam"@,
            ].contains(lower(ext))
        ),
{
}

/// The message for a glob pattern whose walk root is not a directory.
pub fn glob_root_missing(root: &str) -> (m: String)
    ensures
        m@ == "glob base directory not found: "@ + root@,
{
    let mut m = string_from("glob base directory not found: ");
    m.append(root);
    m
}


/// A found file with the key it is told apart by (its canonical path).
pub open spec fn keyed_found_view(x: (String, Option<String>, String)) -> (Seq<char>, Option<Seq<char>>, Seq<char>) {
    (x.0@, opt_str(x.1), x.2@)
}

pub open spec fn keyed_founds_view(v: Seq<(String, Option<String>, String)>) -> Seq<(Seq<char>, Option<Seq<char>>, Seq<char>)> {
    v.map_values(|x: (String, Option<String>, String)| keyed_found_view(x))
}

/// The found files without repeats: of the files with the same key, the
/// first found is kept.
pub open spec fn dedup_spec(v: Seq<(Seq<char>, Option<Seq<char>>, Seq<char>)>) -> Seq<(Seq<char>, Option<Seq<char>>)>
    decreases v.len(),
{
    if v.len() == 0 {
        Seq::empty()
    } else {
        let p = v.drop_last();
        let d = dedup_spec(p);
        if exists|i: int| 0 <= i < p.len() && (#[trigger] p[i]).2 == v.last().2 {
            d
        } else {
            d.push((v.last().0, v.last().1))
        }
    }
}

/// The found files (with their keys) that the batch keeps: of the files
/// with the same key, the first found.
pub open spec fn first_found(v: Seq<(Seq<char>, Option<Seq<char>>, Seq<char>)>) -> Seq<(Seq<char>, Option<Seq<char>>, Seq<char>)>
    decreases v.len(),
{
    if v.len() == 0 {
        Seq::empty()
    } else {
        let p = v.drop_last();
        let d = first_found(p);
        if exists|i: int| 0 <= i < p.len() && (#[trigger] p[i]).2 == v.last().2 {
            d
        } else {
            d.push(v.last())
        }
    }
}

pub open spec fn drop_key(x: (Seq<char>, Option<Seq<char>>, Seq<char>)) -> (Seq<char>, Option<Seq<char>>) {
    (x.0, x.1)
}

proof fn lemma_dedup_map(v: Seq<(Seq<char>, Option<Seq<char>>, Seq<char>)>)
    ensures
        dedup_spec(v) == first_found(v).map_values(|x: (Seq<char>, Option<Seq<char>>, Seq<char>)| drop_key(x)),
    decreases v.len(),
{
    if v.len() > 0 {
        let p = v.drop_last();
        lemma_dedup_map(p);
        let d = first_found(p);
        assert(d.push(v.last()).map_values(|y: (Seq<char>, Option<Seq<char>>, Seq<char>)| drop_key(y)) =~= d.map_values(
            |y: (Seq<char>, Option<Seq<char>>, Seq<char>)| drop_key(y),
        ).push(drop_key(v.last())));
    } else {
        assert(dedup_spec(v) =~= first_found(v).map_values(|x: (Seq<char>, Option<Seq<char>>, Seq<char>)| drop_key(x)));
    }
}

proof fn lemma_first_found_origin(v: Seq<(Seq<char>, Option<Seq<char>>, Seq<char>)>)
    ensures
        forall|j: int| 0 <= j < first_found(v).len() ==> exists|i: int| 0 <= i < v.len() && (#[trigger] v[i])
            == (#[trigger] first_found(v)[j]) && forall|k: int| 0 <= k < i ==> (#[trigger] v[k]).2 != v[i].2,
    decreases v.len(),
{
    if v.len() > 0 {
        let p = v.drop_last();
        let d = first_found(p);
        let x = v.last();
        let f = first_found(v);
        lemma_first_found_origin(p);
        assert forall|j: int| 0 <= j < f.len() implies exists|i: int| 0 <= i < v.len() && (#[trigger] v[i]) == (
        #[trigger] f[j]) && forall|k: int| 0 <= k < i ==> (#[trigger] v[k]).2 != v[i].2 by {
            if j < d.len() {
                assert(f[j] == d[j]);
                let i = choose|i: int| 0 <= i < p.len() && (#[trigger] p[i]) == (#[trigger] d[j]) && forall|k: int|
                    0 <= k < i ==> (#[trigger] p[k]).2 != p[i].2;
                assert(v[i] == p[i]);
                assert forall|k: int| 0 <= k < i implies (#[trigger] v[k]).2 != v[i].2 by {
                    assert(v[k] == p[k]);
                }
            } else {
                assert(f[j] == x);
                let i = (v.len() - 1) as int;
                assert(v[i] == x);
                assert forall|k: int| 0 <= k < i implies (#[trigger] v[k]).2 != v[i].2 by {
                    assert(v[k] == p[k]);
                }
            }
        }
    }
}

proof fn lemma_first_found_distinct(v: Seq<(Seq<char>, Option<Seq<char>>, Seq<char>)>)
    ensures
        forall|a: int, b: int| 0 <= a < b < first_found(v).len() ==> (#[trigger] first_found(v)[a]).2 != (
        #[trigger] first_found(v)[b]).2,
    decreases v.len(),
{
    if v.len() > 0 {
        let p = v.drop_last();
        let d = first_found(p);
        let x = v.last();
        let f = first_found(v);
        lemma_first_found_distinct(p);
        lemma_first_found_origin(p);
        if !exists|i: int| 0 <= i < p.len() && (#[trigger] p[i]).2 == x.2 {
            assert forall|a: int, b: int| 0 <= a < b < f.len() implies (#[trigger] f[a]).2 != (#[trigger] f[b]).2 by {
                if b == d.len() {
                    assert(f[a] == d[a]);
                    let i = choose|i: int| 0 <= i < p.len() && (#[trigger] p[i]) == (#[trigger] d[a]) && forall|k: int|
                        0 <= k < i ==> (#[trigger] p[k]).2 != p[i].2;
                    assert(p[i].2 == d[a].2);
                } else {
                    assert(f[a] == d[a] && f[b] == d[b]);
                }
            }
        }
    }
}

proof fn lemma_first_found_covers(v: Seq<(Seq<char>, Option<Seq<char>>, Seq<char>)>)
    ensures
        forall|i: int| 0 <= i < v.len() ==> exists|j: int| 0 <= j < first_found(v).len() && (#[trigger] first_found(v)[j]).2
            == (#[trigger] v[i]).2,
    decreases v.len(),
{
    if v.len() > 0 {
        let p = v.drop_last();
        let d = first_found(p);
        let x = v.last();
        let f = first_found(v);
        let seen = exists|i: int| 0 <= i < p.len() && (#[trigger] p[i]).2 == x.2;
        lemma_first_found_covers(p);
        assert forall|i: int| 0 <= i < v.len() implies exists|j: int| 0 <= j < f.len() && (#[trigger] f[j]).2
            == (#[trigger] v[i]).2 by {
            if i < p.len() {
                assert(v[i] == p[i]);
                let j = choose|j: int| 0 <= j < d.len() && (#[trigger] d[j]).2 == (#[trigger] p[i]).2;
                assert(f[j] == d[j]);
            } else if seen {
                let i2 = choose|i2: int| 0 <= i2 < p.len() && (#[trigger] p[i2]).2 == x.2;
                let j = choose|j: int| 0 <= j < d.len() && (#[trigger] d[j]).2 == (#[trigger] p[i2]).2;
                assert(f[j] == d[j]);
            } else {
                assert(f[d.len() as int] == x);
            }
        }
    }
}

/// Repeats: the batch holds each found file once. Of the files found with
/// the same key (canonical path), exactly one stays, the first found; no
/// two that stay share a key; and every key found is kept.
pub proof fn lemma_dedup_once(v: Seq<(Seq<char>, Option<Seq<char>>, Seq<char>)>)
    ensures
        dedup_spec(v) == first_found(v).map_values(|x: (Seq<char>, Option<Seq<char>>, Seq<char>)| drop_key(x)),
        forall|a: int, b: int| 0 <= a < b < first_found(v).len() ==> (#[trigger] first_found(v)[a]).2 != (
        #[trigger] first_found(v)[b]).2,
        forall|i: int| 0 <= i < v.len() ==> exists|j: int| 0 <= j < first_found(v).len() && (#[trigger] first_found(v)[j]).2
            == (#[trigger] v[i]).2,
        forall|j: int| 0 <= j < first_found(v).len() ==> exists|i: int| 0 <= i < v.len() && (#[trigger] v[i])
            == (#[trigger] first_found(v)[j]) && forall|k: int| 0 <= k < i ==> (#[trigger] v[k]).2 != v[i].2,
{
    lemma_dedup_map(v);
    lemma_first_found_distinct(v);
    lemma_first_found_covers(v);
    lemma_first_found_origin(v);
}

/// Drops the files found again under another name: of the files with the
/// same key (canonical path), the first found stays.
pub fn dedup_found(items: &Vec<(String, Option<String>, String)>) -> (out: Vec<(String, Option<String>)>)
    ensures
        founds_view(out@) == dedup_spec(keyed_founds_view(items@)),
{
    let mut out: Vec<(String, Option<String>)> = Vec::new();
    let mut n: usize = 0;
    proof {
        assert(keyed_founds_view(items@).take(0) =~= Seq::<(Seq<char>, Option<Seq<char>>, Seq<char>)>::empty());
        assert(founds_view(out@) =~= Seq::<(Seq<char>, Option<Seq<char>>)>::empty());
    }
    while n < items.len()
        invariant
            n <= items@.len(),
            founds_view(out@) == dedup_spec(keyed_founds_view(items@).take(n as int)),
        decreases items.len() - n,
    {
        let ghost v = keyed_founds_view(items@).take(n + 1);
        let mut dup = false;
        let mut j: usize = 0;
        while j < n
            invariant_except_break
                !dup,
            invariant
                j <= n < items@.len(),
                forall|k: int| 0 <= k < j ==> items@[k].2@ != items@[n as int].2@,
            ensures
                dup ==> exists|k: int| 0 <= k < n && items@[k].2@ == items@[n as int].2@,
                !dup ==> forall|k: int| 0 <= k < n ==> items@[k].2@ != items@[n as int].2@,
            decreases n - j,
        {
            if items[j].2 == items[n].2 {
                dup = true;
                assert(items@[j as int].2@ == items@[n as int].2@);
                break;
            }
            j = j + 1;
        }
        proof {
            assert(v.drop_last() =~= keyed_founds_view(items@).take(n as int));
            assert(v.last() == keyed_found_view(items@[n as int]));
            if dup {
                let k = choose|k: int| 0 <= k < n && items@[k].2@ == items@[n as int].2@;
                assert(v.drop_last()[k].2 == v.last().2);
            } else {
                assert(!exists|i: int| 0 <= i < v.drop_last().len() && (#[trigger] v.drop_last()[i]).2 == v.last().2);
            }
        }
        if !dup {
            let path = items[n].0.clone();
            let root = clone_opt_str(&items[n].1);
            let ghost before = out@;
            out.push((path, root));
            assert(founds_view(out@) =~= founds_view(before).push((v.last().0, v.last().1)));
        }
        n = n + 1;
    }
    assert(keyed_founds_view(items@).take(items@.len() as int) =~= keyed_founds_view(items@));
    out
}


/// Files in path order, each kept only when its path comes strictly after
/// the last one kept: of files whose paths compare equal, the first stays.
pub open spec fn strict_paths(v: Seq<(Seq<char>, Option<Seq<char>>)>) -> Seq<(Seq<char>, Option<Seq<char>>)>
    decreases v.len(),
{
    if v.len() == 0 {
        Seq::empty()
    } else {
        let s = strict_paths(v.drop_last());
        if s.len() == 0 || comps_lt(path_components(s.last().0), path_components(v.last().0)) {
            s.push(v.last())
        } else {
            s
        }
    }
}

/// Whether the entries' paths strictly increase: no path is there twice.
pub open spec fn paths_increase(v: Seq<InputEntry>) -> bool {
    forall|i: int, j: int| 0 <= i < j < v.len() ==> comps_lt(
        path_components(#[trigger] v[i].path@),
        path_components(#[trigger] v[j].path@),
    )
}

/// Drops from entries in path order each one whose path does not come
/// strictly after the last one kept, and numbers the rest from 1.
pub fn drop_repeated_paths(entries: Vec<InputEntry>) -> (out: Vec<InputEntry>)
    ensures
        entries_found(out@) == strict_paths(entries_found(entries@)),
        paths_increase(out@),
        forall|i: int| 0 <= i < out@.len() ==> (#[trigger] out@[i]).index == i + 1,
{
    let mut out: Vec<InputEntry> = Vec::new();
    let mut last: Vec<PathComp> = Vec::new();
    let mut i: usize = 0;
    proof {
        assert(entries_found(entries@).take(0) =~= Seq::<(Seq<char>, Option<Seq<char>>)>::empty());
        assert(entries_found(out@) =~= Seq::<(Seq<char>, Option<Seq<char>>)>::empty());
    }
    while i < entries.len()
        invariant
            i <= entries@.len(),
            entries_found(out@) == strict_paths(entries_found(entries@).take(i as int)),
            paths_increase(out@),
            forall|k: int| 0 <= k < out@.len() ==> (#[trigger] out@[k]).index == k + 1,
            out@.len() > 0 ==> comps_view(last@) == path_components(out@.last().path@),
            out@.len() <= i,
        decreases entries.len() - i,
    {
        let ghost v = entries_found(entries@).take(i + 1);
        proof {
            assert(v.drop_last() =~= entries_found(entries@).take(i as int));
            assert(v.last() == (entries@[i as int].path@, opt_str(entries@[i as int].root)));
        }
        let comps = components(entries[i].path.as_str());
        let keep = out.len() == 0 || comps_less(&last, &comps);
        if keep {
            let ghost before = out@;
            let e = InputEntry { path: entries[i].path.clone(), root: clone_opt_str(&entries[i].root), index: out.len() + 1 };
            out.push(e);
            proof {
                assert(entries_found(out@) =~= entries_found(before).push(v.last()));
                assert forall|a: int, b: int| 0 <= a < b < out@.len() implies comps_lt(
                    path_components(#[trigger] out@[a].path@),
                    path_components(#[trigger] out@[b].path@),
                ) by {
                    if b == out@.len() - 1 && a < b - 1 {
                        lemma_comps_lt_order(path_components(out@[a].path@), path_components(before.last().path@), path_components(out@[b].path@));
                        assert(out@[a] == before[a]);
                        assert(before.last() == before[before.len() - 1]);
                    } else if b < out@.len() - 1 {
                        assert(out@[a] == before[a]);
                        assert(out@[b] == before[b]);
                    }
                }
            }
            last = comps;
        }
        i = i + 1;
    }
    assert(entries_found(entries@).take(entries@.len() as int) =~= entries_found(entries@));
    out
}

/// A found file with its key.
pub type Keyed = (Seq<char>, Option<Seq<char>>, Seq<char>);

/// The files without their keys.
pub open spec fn dk_seq(v: Seq<Keyed>) -> Seq<(Seq<char>, Option<Seq<char>>)> {
    v.map_values(|x: Keyed| drop_key(x))
}

/// Whether no two files share a key.
pub open spec fn keys_distinct(v: Seq<Keyed>) -> bool {
    forall|a: int, b: int| 0 <= a < b < v.len() ==> (#[trigger] v[a]).2 != (#[trigger] v[b]).2
}

/// [`insert_at`] over files with their keys.
pub open spec fn insert_at_k(s: Seq<Keyed>, k: Seq<CompView>) -> int
    decreases s.len(),
{
    if s.len() == 0 {
        0
    } else if comps_lt(k, path_components(s[0].0)) {
        0
    } else {
        1 + insert_at_k(s.drop_first(), k)
    }
}

/// [`path_order`] over files with their keys.
pub open spec fn path_order_k(v: Seq<Keyed>) -> Seq<Keyed>
    decreases v.len(),
{
    if v.len() == 0 {
        Seq::empty()
    } else {
        let s = path_order_k(v.drop_last());
        s.insert(insert_at_k(s, path_components(v.last().0)), v.last())
    }
}

/// [`strict_paths`] over files with their keys.
pub open spec fn strict_paths_k(v: Seq<Keyed>) -> Seq<Keyed>
    decreases v.len(),
{
    if v.len() == 0 {
        Seq::empty()
    } else {
        let s = strict_paths_k(v.drop_last());
        if s.len() == 0 || comps_lt(path_components(s.last().0), path_components(v.last().0)) {
            s.push(v.last())
        } else {
            s
        }
    }
}

proof fn lemma_insert_at_k(s: Seq<Keyed>, k: Seq<CompView>)
    ensures
        insert_at(dk_seq(s), k) == insert_at_k(s, k),
        0 <= insert_at_k(s, k) <= s.len(),
    decreases s.len(),
{
    if s.len() > 0 {
        assert(dk_seq(s).drop_first() =~= dk_seq(s.drop_first()));
        lemma_insert_at_k(s.drop_first(), k);
    }
}

proof fn lemma_order_k(v: Seq<Keyed>)
    ensures
        path_order(dk_seq(v)) == dk_seq(path_order_k(v)),
        path_order_k(v).len() == v.len(),
        forall|i: int| 0 <= i < path_order_k(v).len() ==> v.contains(#[trigger] path_order_k(v)[i]),
        keys_distinct(v) ==> keys_distinct(path_order_k(v)),
    decreases v.len(),
{
    if v.len() > 0 {
        let p = v.drop_last();
        let x = v.last();
        lemma_order_k(p);
        let s = path_order_k(p);
        let k = path_components(x.0);
        lemma_insert_at_k(s, k);
        let pos = insert_at_k(s, k);
        assert(dk_seq(v).drop_last() =~= dk_seq(p));
        assert(dk_seq(s.insert(pos, x)) =~= dk_seq(s).insert(pos, drop_key(x)));
        let t = s.insert(pos, x);
        assert forall|i: int| 0 <= i < t.len() implies v.contains(#[trigger] t[i]) by {
            if i < pos {
                assert(t[i] == s[i]);
                assert(p.contains(s[i]));
                let j = choose|j: int| 0 <= j < p.len() && p[j] == s[i];
                assert(v[j] == p[j]);
            } else if i == pos {
                assert(v[v.len() - 1] == x);
            } else {
                assert(t[i] == s[i - 1]);
                assert(p.contains(s[i - 1]));
                let j = choose|j: int| 0 <= j < p.len() && p[j] == s[i - 1];
                assert(v[j] == p[j]);
            }
        }
        if keys_distinct(v) {
            assert(keys_distinct(p)) by {
                assert forall|a: int, b: int| 0 <= a < b < p.len() implies (#[trigger] p[a]).2 != (#[trigger] p[b]).2 by {
                    assert(p[a] == v[a] && p[b] == v[b]);
                }
            }
            assert forall|i: int| 0 <= i < s.len() implies (#[trigger] s[i]).2 != x.2 by {
                assert(p.contains(s[i]));
                let j = choose|j: int| 0 <= j < p.len() && p[j] == s[i];
                assert(v[j] == p[j]);
                assert(v[v.len() - 1] == x);
            }
            assert forall|a: int, b: int| 0 <= a < b < t.len() implies (#[trigger] t[a]).2 != (#[trigger] t[b]).2 by {
                if b < pos {
                    assert(t[a] == s[a] && t[b] == s[b]);
                } else if b == pos {
                    assert(t[a] == s[a]);
                } else if a < pos {
                    assert(t[a] == s[a] && t[b] == s[b - 1]);
                } else if a == pos {
                    assert(t[b] == s[b - 1]);
                } else {
                    assert(t[a] == s[a - 1] && t[b] == s[b - 1]);
                }
            }
        }
    } else {
        assert(path_order(dk_seq(v)) =~= dk_seq(path_order_k(v)));
    }
}

proof fn lemma_strict_k(v: Seq<Keyed>)
    ensures
        strict_paths(dk_seq(v)) == dk_seq(strict_paths_k(v)),
        forall|i: int| 0 <= i < strict_paths_k(v).len() ==> v.contains(#[trigger] strict_paths_k(v)[i]),
        keys_distinct(v) ==> keys_distinct(strict_paths_k(v)),
    decreases v.len(),
{
    if v.len() > 0 {
        let p = v.drop_last();
        let x = v.last();
        lemma_strict_k(p);
        let s = strict_paths_k(p);
        assert(dk_seq(v).drop_last() =~= dk_seq(p));
        assert(dk_seq(s.push(x)) =~= dk_seq(s).push(drop_key(x)));
        if s.len() > 0 {
            assert(dk_seq(s).last() == drop_key(s.last()));
        }
        let t = strict_paths_k(v);
        assert forall|i: int| 0 <= i < t.len() implies v.contains(#[trigger] t[i]) by {
            if i < s.len() {
                assert(t[i] == s[i]);
                assert(p.contains(s[i]));
                let j = choose|j: int| 0 <= j < p.len() && p[j] == s[i];
                assert(v[j] == p[j]);
            } else {
                assert(v[v.len() - 1] == x);
            }
        }
        if keys_distinct(v) {
            assert(keys_distinct(p)) by {
                assert forall|a: int, b: int| 0 <= a < b < p.len() implies (#[trigger] p[a]).2 != (#[trigger] p[b]).2 by {
                    assert(p[a] == v[a] && p[b] == v[b]);
                }
            }
            assert forall|a: int, b: int| 0 <= a < b < t.len() implies (#[trigger] t[a]).2 != (#[trigger] t[b]).2 by {
                if b < s.len() {
                    assert(t[a] == s[a] && t[b] == s[b]);
                } else {
                    assert(t[a] == s[a]);
                    assert(p.contains(s[a]));
                    let j = choose|j: int| 0 <= j < p.len() && p[j] == s[a];
                    assert(v[j] == p[j]);
                    assert(v[v.len() - 1] == x);
                }
            }
        }
    } else {
        assert(strict_paths(dk_seq(v)) =~= dk_seq(strict_paths_k(v)));
    }
}

/// Whether `ks` gives each entry of `out` a key of the found files it comes
/// from (`items`, each with its key), no two entries the same key.
pub open spec fn keys_for(out: Seq<InputEntry>, items: Seq<Keyed>, ks: Seq<Seq<char>>) -> bool {
    &&& ks.len() == out.len()
    &&& forall|a: int, b: int| 0 <= a < b < ks.len() ==> #[trigger] ks[a] != #[trigger] ks[b]
    &&& forall|i: int| 0 <= i < out.len() ==> items.contains((#[trigger] out[i].path@, opt_str(out[i].root), ks[i]))
}

/// The batch from the files found, in the order found, each with its key:
/// repeats dropped (the first found stays), then in path order, a path that
/// compares equal to the one before it dropped too, numbered from 1. Each
/// entry comes from a found file, and no two entries share a key.
pub fn finish_discovery(items: &Vec<(String, Option<String>, String)>) -> (out: Vec<InputEntry>)
    ensures
        entries_found(out@) == strict_paths(path_order(dedup_spec(keyed_founds_view(items@)))),
        exists|ks: Seq<Seq<char>>| #[trigger] keys_for(out@, keyed_founds_view(items@), ks),
        paths_increase(out@),
        path_sorted(out@),
        forall|i: int| 0 <= i < out@.len() ==> (#[trigger] out@[i]).index == i + 1,
{
    let ordered = order_entries(dedup_found(items));
    let out = drop_repeated_paths(ordered);
    proof {
        let v = keyed_founds_view(items@);
        lemma_dedup_once(v);
        let kf = first_found(v);
        assert(dk_seq(kf) =~= dedup_spec(v));
        assert(keys_distinct(kf));
        lemma_order_k(kf);
        let pk = path_order_k(kf);
        lemma_strict_k(pk);
        let sk = strict_paths_k(pk);
        assert(entries_found(out@) == dk_seq(sk));
        let ks = sk.map_values(|x: Keyed| x.2);
        assert forall|i: int| 0 <= i < out@.len() implies v.contains((#[trigger] out@[i].path@, opt_str(out@[i].root), ks[i])) by {
            assert(entries_found(out@)[i] == dk_seq(sk)[i]);
            assert(sk[i] == (out@[i].path@, opt_str(out@[i].root), ks[i]));
            assert(pk.contains(sk[i]));
            let j = choose|j: int| 0 <= j < pk.len() && pk[j] == sk[i];
            assert(kf.contains(pk[j]));
            let m = choose|m: int| 0 <= m < kf.len() && kf[m] == pk[j];
            let n = choose|n: int| 0 <= n < v.len() && v[n] == kf[m] && forall|k: int| 0 <= k < n ==> (#[trigger] v[k]).2 != v[n].2;
        }
        assert forall|a: int, b: int| 0 <= a < b < ks.len() implies #[trigger] ks[a] != #[trigger] ks[b] by {
            assert(sk[a].2 != sk[b].2);
        }
        assert(keys_for(out@, v, ks));
        assert forall|i: int, j: int| 0 <= i < j < out@.len() implies !comps_lt(
            path_components(#[trigger] out@[j].path@),
            path_components(#[trigger] out@[i].path@),
        ) by {
            lemma_comps_lt_order(path_components(out@[i].path@), path_components(out@[j].path@), path_components(out@[j].path@));
        }
    }
    out
}

/// The usage error when discovery found neither a file nor a failing
/// input: a batch of nothing is refused.
pub fn check_discovered(entries: &Vec<InputEntry>, errors: &Vec<(String, String)>) -> (r: Result<(), String>)
    ensures
        r is Ok <==> (entries@.len() > 0 || errors@.len() > 0),
        r matches Err(m) ==> m@ == "no input files matched"@,
{
    if entries.len() == 0 && errors.len() == 0 {
        Err(string_from("no input files matched"))
    } else {
        Ok(())
    }
}

} // verus!
