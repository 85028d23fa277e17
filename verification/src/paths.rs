//! The path operations of `std::path` that naming and placing outputs use.
//! Each result is named: it depends on the path text alone (under the path
//! syntax of the target the library is built for).

use vstd::prelude::*;

verus! {

pub open spec fn opt_str(o: Option<String>) -> Option<Seq<char>> {
    match o {
        Some(s) => Some(s@),
        None => None,
    }
}

/// A copy of an optional string.
pub fn clone_opt_str(o: &Option<String>) -> (r: Option<String>)
    ensures
        opt_str(r) == opt_str(*o),
{
    match o {
        Some(s) => Some(s.clone()),
        None => None,
    }
}

/// `Path::file_stem` of `p`: the file name without its last extension.
pub uninterp spec fn path_file_stem(p: Seq<char>) -> Option<Seq<char>>;

/// `Path::parent` of `p`.
pub uninterp spec fn path_parent(p: Seq<char>) -> Option<Seq<char>>;

/// `Path::file_name` of `p`: its last normal component.
pub uninterp spec fn path_file_name(p: Seq<char>) -> Option<Seq<char>>;

/// `Path::with_extension` of `p`.
pub uninterp spec fn path_with_extension(p: Seq<char>, ext: Seq<char>) -> Seq<char>;

/// `Path::join` of `base` and `rel`.
pub uninterp spec fn path_join(base: Seq<char>, rel: Seq<char>) -> Seq<char>;

/// `Path::strip_prefix` of `p` by `prefix`.
pub uninterp spec fn path_strip_prefix(p: Seq<char>, prefix: Seq<char>) -> Option<Seq<char>>;

/// `std::path::Path::file_stem`; the stem of a path given as `&str` is valid
/// Unicode, so the conversion back to a string loses nothing.
#[verifier::external_body]
pub(crate) fn file_stem(p: &str) -> (r: Option<String>)
    ensures
        opt_str(r) == path_file_stem(p@),
{
    std::path::Path::new(p).file_stem().and_then(|s| s.to_str()).map(|s| s.to_string())
}

/// `std::path::Path::parent`.
#[verifier::external_body]
pub(crate) fn parent(p: &str) -> (r: Option<String>)
    ensures
        opt_str(r) == path_parent(p@),
{
    std::path::Path::new(p).parent().and_then(|s| s.to_str()).map(|s| s.to_string())
}

/// `std::path::Path::file_name`.
#[verifier::external_body]
pub(crate) fn file_name(p: &str) -> (r: Option<String>)
    ensures
        opt_str(r) == path_file_name(p@),
{
    std::path::Path::new(p).file_name().and_then(|s| s.to_str()).map(|s| s.to_string())
}

/// `std::path::Path::with_extension`. Recent std panics when the new
/// extension holds a path separator; `requires` leaves such extensions out.
#[verifier::external_body]
pub(crate) fn with_extension(p: &str, ext: &str) -> (r: String)
    requires
        forall|i: int| 0 <= i < ext@.len() ==> ext@[i] != '/' && ext@[i] != '\\',
    ensures
        r@ == path_with_extension(p@, ext@),
{
    std::path::Path::new(p).with_extension(ext).to_string_lossy().into_owned()
}

/// `std::path::Path::join`.
#[verifier::external_body]
pub(crate) fn join(base: &str, rel: &str) -> (r: String)
    ensures
        r@ == path_join(base@, rel@),
{
    std::path::Path::new(base).join(rel).to_string_lossy().into_owned()
}

/// `std::path::Path::strip_prefix`.
#[verifier::external_body]
pub(crate) fn strip_prefix(p: &str, prefix: &str) -> (r: Option<String>)
    ensures
        opt_str(r) == path_strip_prefix(p@, prefix@),
{
    std::path::Path::new(p).strip_prefix(prefix).ok().and_then(|s| s.to_str()).map(|s| s.to_string())
}


// ---------------------------------------------------------------- components

/// A component of a path, as `Path::components` yields it.
#[derive(Clone, Debug)]
pub enum PathComp {
    /// A Windows prefix such as `C:`, by its text.
    Prefix(String),
    RootDir,
    CurDir,
    ParentDir,
    Normal(String),
}

/// The content of a [`PathComp`].
pub enum CompView {
    Prefix(Seq<char>),
    RootDir,
    CurDir,
    ParentDir,
    Normal(Seq<char>),
}

impl View for PathComp {
    type V = CompView;

    open spec fn view(&self) -> CompView {
        match self {
            PathComp::Prefix(s) => CompView::Prefix(s@),
            PathComp::RootDir => CompView::RootDir,
            PathComp::CurDir => CompView::CurDir,
            PathComp::ParentDir => CompView::ParentDir,
            PathComp::Normal(s) => CompView::Normal(s@),
        }
    }
}

pub open spec fn comps_view(v: Seq<PathComp>) -> Seq<CompView> {
    v.map_values(|c: PathComp| c@)
}

/// `Path::components` of `p`.
pub uninterp spec fn path_components(p: Seq<char>) -> Seq<CompView>;

/// `std::path::Path::components`, each component with its text.
#[verifier::external_body]
pub(crate) fn components(p: &str) -> (r: Vec<PathComp>)
    ensures
        comps_view(r@) == path_components(p@),
{
    std::path::Path::new(p).components().map(|c| match c {
        std::path::Component::Prefix(x) => PathComp::Prefix(x.as_os_str().to_string_lossy().into_owned()),
        std::path::Component::RootDir => PathComp::RootDir,
        std::path::Component::CurDir => PathComp::CurDir,
        std::path::Component::ParentDir => PathComp::ParentDir,
        std::path::Component::Normal(x) => PathComp::Normal(x.to_string_lossy().into_owned()),
    }).collect()
}

/// Text in code point order (the byte order of its UTF-8 form).
pub open spec fn text_lt(a: Seq<char>, b: Seq<char>) -> bool
    decreases a.len(),
{
    if b.len() == 0 {
        false
    } else if a.len() == 0 {
        true
    } else if a[0] != b[0] {
        (a[0] as int) < (b[0] as int)
    } else {
        text_lt(a.drop_first(), b.drop_first())
    }
}

pub open spec fn comp_rank(c: CompView) -> int {
    match c {
        CompView::Prefix(_) => 0,
        CompView::RootDir => 1,
        CompView::CurDir => 2,
        CompView::ParentDir => 3,
        CompView::Normal(_) => 4,
    }
}

pub open spec fn comp_text(c: CompView) -> Seq<char> {
    match c {
        CompView::Prefix(s) => s,
        CompView::Normal(s) => s,
        _ => Seq::empty(),
    }
}

/// The order of path components: by kind (prefix, root, `.`, `..`, name),
/// then by text.
pub open spec fn comp_lt(a: CompView, b: CompView) -> bool {
    comp_rank(a) < comp_rank(b) || (comp_rank(a) == comp_rank(b) && text_lt(comp_text(a), comp_text(b)))
}

/// The order of paths: their components compared one after the other, a
/// path before the paths it is a proper prefix of.
pub open spec fn comps_lt(a: Seq<CompView>, b: Seq<CompView>) -> bool
    decreases a.len(),
{
    if b.len() == 0 {
        false
    } else if a.len() == 0 {
        true
    } else if comp_lt(a[0], b[0]) {
        true
    } else if comp_lt(b[0], a[0]) {
        false
    } else {
        comps_lt(a.drop_first(), b.drop_first())
    }
}

pub proof fn lemma_text_lt_order(a: Seq<char>, b: Seq<char>, c: Seq<char>)
    ensures
        !text_lt(a, a),
        text_lt(a, b) ==> !text_lt(b, a),
        text_lt(a, b) && text_lt(b, c) ==> text_lt(a, c),
        !text_lt(a, b) && !text_lt(b, a) ==> a =~= b,
    decreases a.len(),
{
    if a.len() > 0 && b.len() > 0 && c.len() > 0 {
        lemma_text_lt_order(a.drop_first(), b.drop_first(), c.drop_first());
        if !text_lt(a, b) && !text_lt(b, a) {
            assert(a[0] == b[0]);
            assert(a.drop_first() =~= b.drop_first());
            assert(a =~= seq![a[0]] + a.drop_first());
            assert(b =~= seq![b[0]] + b.drop_first());
        }
    } else if a.len() > 0 && b.len() > 0 {
        lemma_text_lt_order(a.drop_first(), b.drop_first(), b.drop_first());
        if !text_lt(a, b) && !text_lt(b, a) {
            assert(a[0] == b[0]);
            assert(a.drop_first() =~= b.drop_first());
            assert(a =~= seq![a[0]] + a.drop_first());
            assert(b =~= seq![b[0]] + b.drop_first());
        }
    } else if a.len() > 0 {
        lemma_text_lt_order(a.drop_first(), a.drop_first(), a.drop_first());
    }
}

pub proof fn lemma_comp_lt_order(a: CompView, b: CompView, c: CompView)
    ensures
        !comp_lt(a, a),
        comp_lt(a, b) ==> !comp_lt(b, a),
        comp_lt(a, b) && comp_lt(b, c) ==> comp_lt(a, c),
        !comp_lt(a, b) && !comp_lt(b, a) ==> comp_rank(a) == comp_rank(b) && comp_text(a) =~= comp_text(b),
{
    lemma_text_lt_order(comp_text(a), comp_text(b), comp_text(c));
    lemma_text_lt_order(comp_text(b), comp_text(a), comp_text(c));
}

/// The path order is a strict order, and any two paths are ordered one way
/// or have the same components as far as the order sees.
pub proof fn lemma_comps_lt_order(a: Seq<CompView>, b: Seq<CompView>, c: Seq<CompView>)
    ensures
        !comps_lt(a, a),
        comps_lt(a, b) ==> !comps_lt(b, a),
        comps_lt(a, b) && comps_lt(b, c) ==> comps_lt(a, c),
        !comps_lt(a, b) && !comps_lt(b, a) && !comps_lt(b, c) && !comps_lt(c, b) ==> !comps_lt(a, c) && !comps_lt(c, a),
        !comps_lt(a, b) && !comps_lt(b, c) ==> !comps_lt(a, c),
    decreases a.len(),
{
    if a.len() > 0 {
        lemma_comp_lt_order(a[0], a[0], a[0]);
        lemma_comps_lt_order(a.drop_first(), a.drop_first(), a.drop_first());
    }
    if a.len() > 0 && b.len() > 0 {
        lemma_comp_lt_order(a[0], b[0], b[0]);
        lemma_comp_lt_order(b[0], a[0], a[0]);
    }
    if a.len() > 0 && b.len() > 0 && c.len() > 0 {
        lemma_comp_lt_order(a[0], b[0], c[0]);
        lemma_comp_lt_order(c[0], b[0], a[0]);
        lemma_comp_lt_order(b[0], c[0], a[0]);
        lemma_comp_lt_order(a[0], c[0], b[0]);
        lemma_comp_lt_order(b[0], a[0], c[0]);
        lemma_comp_lt_order(c[0], a[0], b[0]);
        lemma_comps_lt_order(a.drop_first(), b.drop_first(), c.drop_first());
    } else if a.len() > 0 && b.len() > 0 {
        lemma_comps_lt_order(a.drop_first(), b.drop_first(), b.drop_first());
    } else if b.len() > 0 && c.len() > 0 {
        lemma_comp_lt_order(b[0], c[0], c[0]);
        lemma_comp_lt_order(c[0], b[0], b[0]);
    } else if a.len() > 0 && c.len() > 0 {
        lemma_comp_lt_order(a[0], c[0], c[0]);
        lemma_comp_lt_order(c[0], a[0], a[0]);
    }
}


proof fn lemma_text_lt_skip(a: Seq<char>, b: Seq<char>, i: int)
    requires
        0 <= i <= a.len(),
        i <= b.len(),
        forall|k: int| 0 <= k < i ==> a[k] == b[k],
    ensures
        text_lt(a, b) == text_lt(a.skip(i), b.skip(i)),
    decreases i,
{
    if i == 0 {
        assert(a.skip(0) =~= a);
        assert(b.skip(0) =~= b);
    } else {
        lemma_text_lt_skip(a.drop_first(), b.drop_first(), i - 1);
        assert(a.drop_first().skip(i - 1) =~= a.skip(i));
        assert(b.drop_first().skip(i - 1) =~= b.skip(i));
    }
}

/// Compares two texts in code point order.
pub fn text_less(a: &str, b: &str) -> (r: bool)
    ensures
        r == text_lt(a@, b@),
{
    let va = crate::text::chars_of(a);
    let vb = crate::text::chars_of(b);
    let mut i: usize = 0;
    while i < va.len() && i < vb.len()
        invariant
            i <= va.len(),
            i <= vb.len(),
            va@ == a@,
            vb@ == b@,
            forall|k: int| 0 <= k < i ==> va@[k] == vb@[k],
        decreases va.len() - i,
    {
        if va[i] != vb[i] {
            proof {
                lemma_text_lt_skip(a@, b@, i as int);
                assert(a@.skip(i as int)[0] == va@[i as int]);
                assert(b@.skip(i as int)[0] == vb@[i as int]);
            }
            return va[i] < vb[i];
        }
        i = i + 1;
    }
    proof {
        lemma_text_lt_skip(a@, b@, i as int);
    }
    i == va.len() && i < vb.len()
}

fn comp_rank_exec(c: &PathComp) -> (r: u8)
    ensures
        r as int == comp_rank(c@),
{
    match c {
        PathComp::Prefix(_) => 0,
        PathComp::RootDir => 1,
        PathComp::CurDir => 2,
        PathComp::ParentDir => 3,
        PathComp::Normal(_) => 4,
    }
}

fn comp_less(a: &PathComp, b: &PathComp) -> (r: bool)
    ensures
        r == comp_lt(a@, b@),
{
    let ra = comp_rank_exec(a);
    let rb = comp_rank_exec(b);
    if ra != rb {
        return ra < rb;
    }
    match (a, b) {
        (PathComp::Prefix(x), PathComp::Prefix(y)) => text_less(x.as_str(), y.as_str()),
        (PathComp::Normal(x), PathComp::Normal(y)) => text_less(x.as_str(), y.as_str()),
        _ => {
            proof {
                assert(comp_text(a@) =~= Seq::<char>::empty());
                assert(comp_text(b@) =~= Seq::<char>::empty());
            }
            false
        },
    }
}

proof fn lemma_comps_lt_skip(a: Seq<CompView>, b: Seq<CompView>, i: int)
    requires
        0 <= i <= a.len(),
        i <= b.len(),
        forall|k: int| 0 <= k < i ==> !comp_lt(a[k], b[k]) && !comp_lt(b[k], a[k]),
    ensures
        comps_lt(a, b) == comps_lt(a.skip(i), b.skip(i)),
    decreases i,
{
    if i == 0 {
        assert(a.skip(0) =~= a);
        assert(b.skip(0) =~= b);
    } else {
        lemma_comps_lt_skip(a.drop_first(), b.drop_first(), i - 1);
        assert(a.drop_first().skip(i - 1) =~= a.skip(i));
        assert(b.drop_first().skip(i - 1) =~= b.skip(i));
    }
}

/// Compares two paths, given by their components, in the order of `Path`.
pub fn comps_less(a: &Vec<PathComp>, b: &Vec<PathComp>) -> (r: bool)
    ensures
        r == comps_lt(comps_view(a@), comps_view(b@)),
{
    let ghost va = comps_view(a@);
    let ghost vb = comps_view(b@);
    let mut i: usize = 0;
    while i < a.len() && i < b.len()
        invariant
            i <= a.len(),
            i <= b.len(),
            va == comps_view(a@),
            vb == comps_view(b@),
            forall|k: int| 0 <= k < i ==> !comp_lt(va[k], vb[k]) && !comp_lt(vb[k], va[k]),
        decreases a.len() - i,
    {
        if comp_less(&a[i], &b[i]) {
            proof {
                lemma_comps_lt_skip(va, vb, i as int);
                assert(va.skip(i as int)[0] == va[i as int]);
                assert(vb.skip(i as int)[0] == vb[i as int]);
            }
            return true;
        }
        if comp_less(&b[i], &a[i]) {
            proof {
                lemma_comps_lt_skip(va, vb, i as int);
                assert(va.skip(i as int)[0] == va[i as int]);
                assert(vb.skip(i as int)[0] == vb[i as int]);
            }
            return false;
        }
        i = i + 1;
    }
    proof {
        lemma_comps_lt_skip(va, vb, i as int);
    }
    i == a.len() && i < b.len()
}


/// The text of each component of `p` (`Component::as_os_str`).
pub uninterp spec fn path_component_texts(p: Seq<char>) -> Seq<Seq<char>>;

pub open spec fn strings_view(v: Seq<String>) -> Seq<Seq<char>> {
    v.map_values(|s: String| s@)
}

/// `std::path::Path::components`, each by its text (`Component::as_os_str`).
#[verifier::external_body]
pub(crate) fn component_texts(p: &str) -> (r: Vec<String>)
    ensures
        strings_view(r@) == path_component_texts(p@),
{
    std::path::Path::new(p).components().map(|c| c.as_os_str().to_string_lossy().into_owned()).collect()
}

} // verus!
