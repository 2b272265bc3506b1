//! A sandbox for paths.
//!
//! A path that came with a request is resolved only inside roots that are allowed: the folder of
//! the models, folders that the user added, or the home folder. Paths are texts with `/` between
//! their parts.

use vstd::prelude::*;

use crate::text;

verus! {

/// Why a path of a request is refused.
#[derive(Debug, Clone, Copy, PartialEq, Eq, Structural)]
pub enum PathRejection {
    /// An empty path, a zero character, or an object of another kind (a folder for a file).
    Invalid,
    /// Nothing is there in any of the roots.
    NotFound,
    /// The object exists, but outside the roots.
    OutsideRoots,
}

/// What stands at a path.
#[derive(Debug, Clone, Copy, PartialEq, Eq, Structural)]
pub enum PathKind {
    File,
    Folder,
    Other,
}

/// An existing object: its canonical path, free of `..` and of symbolic links, and its kind.
#[derive(Debug)]
pub struct Found {
    pub path: String,
    pub kind: PathKind,
}

#[verifier::ext_equal]
pub struct FoundView {
    pub path: Seq<char>,
    pub kind: PathKind,
}

impl View for Found {
    type V = FoundView;

    open spec fn view(&self) -> FoundView {
        FoundView { path: self.path@, kind: self.kind }
    }
}

pub open spec fn found_view(f: Option<Found>) -> Option<FoundView> {
    match f {
        Some(found) => Some(found@),
        None => None,
    }
}

pub open spec fn founds_view(s: Seq<Option<Found>>) -> Seq<Option<FoundView>> {
    Seq::new(s.len(), |i: int| found_view(s[i]))
}

/// Whether a path lies at or below a root: it is the root, or goes on behind it with `/`.
pub open spec fn within(path: Seq<char>, root: Seq<char>) -> bool {
    &&& text::occurs_at(path, root, 0)
    &&& path.len() == root.len() || (root.len() > 0 && root.last() == '/') || path[root.len() as int]
        == '/'
}

pub open spec fn within_any(path: Seq<char>, roots: Seq<Seq<char>>) -> bool {
    exists|i: int| 0 <= i < roots.len() && within(path, #[trigger] roots[i])
}

/// The names that a path goes through, among the first `n` of its pieces: without empty ones, and
/// without `.` behind the first.
pub open spec fn steps(pieces: Seq<Seq<char>>, n: int) -> Seq<Seq<char>>
    decreases n,
{
    if n <= 0 {
        Seq::empty()
    } else {
        let before = steps(pieces, n - 1);
        let p = pieces[n - 1];
        if p.len() == 0 || (p == "."@ && n > 1) {
            before
        } else {
            before.push(p)
        }
    }
}

pub open spec fn path_steps(path: Seq<char>) -> Seq<Seq<char>> {
    let all = text::pieces(path, '/');
    steps(all, all.len() as int)
}

/// Whether two paths go through the same names from the same start: a `/` at the end, or one too
/// many, does not make them different.
pub open spec fn same_path(a: Seq<char>, b: Seq<char>) -> bool {
    &&& (a.len() > 0 && a[0] == '/') == (b.len() > 0 && b[0] == '/')
    &&& path_steps(a) == path_steps(b)
}

/// A path below a root.
pub open spec fn joined(root: Seq<char>, path: Seq<char>) -> Seq<char> {
    if root.len() == 0 {
        path
    } else if root.last() == '/' {
        root + path
    } else {
        root + seq!['/'] + path
    }
}

/// The path of a request without the white space at its ends, if there is anything to look for and
/// a root to look in.
pub open spec fn spec_asked(roots: Seq<Seq<char>>, user_path: Seq<char>) -> Result<
    Seq<char>,
    PathRejection,
> {
    let path = text::trimmed(user_path);
    if path.len() == 0 || path.contains('\0') {
        Err(PathRejection::Invalid)
    } else if roots.len() == 0 {
        Err(PathRejection::NotFound)
    } else {
        Ok(path)
    }
}

/// Where to look for a path of a request: a full one as it is, any other below every root in turn.
pub open spec fn spec_candidates(
    roots: Seq<Seq<char>>,
    user_path: Seq<char>,
    is_full: bool,
) -> Result<Seq<Seq<char>>, PathRejection> {
    match spec_asked(roots, user_path) {
        Err(e) => Err(e),
        Ok(path) => if is_full {
            Ok(seq![path])
        } else {
            Ok(Seq::new(roots.len(), |i: int| joined(roots[i], path)))
        },
    }
}

/// The first of the first `n` objects that lies inside a root; else whether anything was found.
pub open spec fn first_inside(
    roots: Seq<Seq<char>>,
    found: Seq<Option<FoundView>>,
    n: int,
) -> Result<FoundView, PathRejection>
    decreases n,
{
    if n <= 0 {
        Err(PathRejection::NotFound)
    } else {
        match first_inside(roots, found, n - 1) {
            Ok(f) => Ok(f),
            Err(why) => match found[n - 1] {
                None => Err(why),
                Some(f) => if within_any(f.path, roots) {
                    Ok(f)
                } else {
                    Err(PathRejection::OutsideRoots)
                },
            },
        }
    }
}

/// What a path of a request stands for. `found` says what there is at each candidate.
pub open spec fn spec_resolve(
    roots: Seq<Seq<char>>,
    user_path: Seq<char>,
    found: Seq<Option<FoundView>>,
) -> Result<FoundView, PathRejection> {
    match spec_asked(roots, user_path) {
        Err(e) => Err(e),
        Ok(_) => first_inside(roots, found, found.len() as int),
    }
}

fn steps_of(path: &str) -> (r: Vec<String>)
    ensures
        text::views(r@) == path_steps(path@),
{
    let all = text::split(path, '/');
    let ghost view = text::views(all@);
    let mut out: Vec<String> = Vec::new();
    let mut i: usize = 0;
    assert(text::views(out@) =~= Seq::empty());
    while i < all.len()
        invariant
            i <= all@.len(),
            view == text::views(all@),
            text::views(out@) == steps(view, i as int),
        decreases all@.len() - i,
    {
        assert(view[i as int] == all@[i as int]@);
        let p = &all[i];
        if !(p.as_str().is_empty() || (i > 0 && text::same(p.as_str(), "."))) {
            let ghost before = text::views(out@);
            out.push(p.clone());
            assert(text::views(out@) =~= before.push(p@));
        }
        i += 1;
    }
    out
}

/// Whether two paths go through the same names from the same start.
pub fn is_same_path(a: &str, b: &str) -> (r: bool)
    ensures
        r == same_path(a@, b@),
{
    let first = steps_of(a);
    let second = steps_of(b);
    let ghost va = text::views(first@);
    let ghost vb = text::views(second@);
    let from_root_a = !a.is_empty() && a.get_char(0) == '/';
    let from_root_b = !b.is_empty() && b.get_char(0) == '/';
    if from_root_a != from_root_b || first.len() != second.len() {
        assert(va.len() == first@.len() && vb.len() == second@.len());
        return false;
    }
    let mut i: usize = 0;
    while i < first.len()
        invariant
            i <= first@.len(),
            first@.len() == second@.len(),
            va == text::views(first@),
            vb == text::views(second@),
            va == path_steps(a@),
            vb == path_steps(b@),
            forall|k: int| 0 <= k < i ==> va[k] == vb[k],
        decreases first@.len() - i,
    {
        assert(va[i as int] == first@[i as int]@ && vb[i as int] == second@[i as int]@);
        if !text::same(first[i].as_str(), second[i].as_str()) {
            return false;
        }
        i += 1;
    }
    assert(va =~= vb);
    true
}

pub(crate) fn is_within(path: &str, root: &str) -> (r: bool)
    ensures
        r == within(path@, root@),
{
    let p = text::to_chars(path);
    let q = text::to_chars(root);
    if !text::matches_at(&p, &q, 0) {
        return false;
    }
    p.len() == q.len() || (q.len() > 0 && q[q.len() - 1] == '/') || p[q.len()] == '/'
}

pub(crate) fn is_within_any(path: &str, roots: &Vec<String>) -> (r: bool)
    ensures
        r == within_any(path@, text::views(roots@)),
{
    let ghost all = text::views(roots@);
    let mut i: usize = 0;
    while i < roots.len()
        invariant
            i <= roots@.len(),
            all == text::views(roots@),
            forall|k: int| 0 <= k < i ==> !within(path@, #[trigger] all[k]),
        decreases roots@.len() - i,
    {
        assert(all[i as int] == roots@[i as int]@);
        if is_within(path, roots[i].as_str()) {
            return true;
        }
        i += 1;
    }
    false
}

/// A path below a root.
pub fn join(root: &str, path: &str) -> (r: String)
    ensures
        r@ == joined(root@, path@),
{
    if root.is_empty() {
        return path.to_owned();
    }
    if text::ends_with(root, "/") {
        proof {
            reveal_strlit("/");
            assert(root@.subrange(root@.len() - 1, root@.len() as int)[0] == "/"@[0]);
        }
        text::join2(root, path)
    } else {
        proof {
            reveal_strlit("/");
            if root@.len() > 0 && root@.last() == '/' {
                assert(root@.subrange(root@.len() - 1, root@.len() as int) =~= "/"@);
            }
            assert("/"@ =~= seq!['/']);
        }
        text::join3(root, "/", path)
    }
}

fn asked(roots: &Vec<String>, user_path: &str) -> (r: Result<String, PathRejection>)
    ensures
        match spec_asked(text::views(roots@), user_path@) {
            Ok(path) => r is Ok && r->Ok_0@ == path,
            Err(e) => r is Err && r->Err_0 == e,
        },
{
    let path = text::trim(user_path);
    if path.as_str().is_empty() || text::contains_char(path.as_str(), '\0') {
        return Err(PathRejection::Invalid);
    }
    if roots.len() == 0 {
        return Err(PathRejection::NotFound);
    }
    Ok(path)
}

/// Where to look for a path of a request. `roots` are the canonical paths of the roots that exist;
/// `is_full` says whether the system takes the path as a full one.
pub fn path_candidates(roots: &Vec<String>, user_path: &str, is_full: bool) -> (r: Result<
    Vec<String>,
    PathRejection,
>)
    ensures
        match spec_candidates(text::views(roots@), user_path@, is_full) {
            Ok(v) => r is Ok && text::views(r->Ok_0@) == v,
            Err(e) => r is Err && r->Err_0 == e,
        },
{
    let path = asked(roots, user_path)?;
    let ghost all = text::views(roots@);
    let mut candidates: Vec<String> = Vec::new();
    if is_full {
        let ghost p = path@;
        candidates.push(path);
        assert(text::views(candidates@) =~= seq![p]);
        return Ok(candidates);
    }
    let mut i: usize = 0;
    while i < roots.len()
        invariant
            i <= roots@.len(),
            all == text::views(roots@),
            candidates@.len() == i,
            forall|k: int|
                0 <= k < i ==> (#[trigger] candidates@[k])@ == joined(all[k], path@),
        decreases roots@.len() - i,
    {
        candidates.push(join(roots[i].as_str(), path.as_str()));
        i += 1;
    }
    assert(text::views(candidates@) =~= Seq::new(all.len(), |k: int| joined(all[k], path@)));
    Ok(candidates)
}

proof fn lemma_steps_of_longer(pieces: Seq<Seq<char>>, more: Seq<char>, n: int)
    requires
        n <= pieces.len(),
    ensures
        steps(pieces.push(more), n) == steps(pieces, n),
    decreases n,
{
    if n > 0 {
        lemma_steps_of_longer(pieces, more, n - 1);
        assert(pieces.push(more)[n - 1] == pieces[n - 1]);
    }
}

/// A path and the same path with a `/` at its end are one folder.
pub proof fn law_slash_at_the_end_does_not_count(path: Seq<char>)
    requires
        path.len() > 0,
    ensures
        same_path(path.push('/'), path),
{
    let longer = path.push('/');
    assert(longer.drop_last() =~= path);
    let all = text::pieces(path, '/');
    lemma_steps_of_longer(all, Seq::empty(), all.len() as int);
}

proof fn lemma_first_inside_kept(
    roots: Seq<Seq<char>>,
    found: Seq<Option<FoundView>>,
    k: int,
    n: int,
)
    requires
        k <= n,
        first_inside(roots, found, k) is Ok,
    ensures
        first_inside(roots, found, n) == first_inside(roots, found, k),
    decreases n - k,
{
    if k < n {
        lemma_first_inside_kept(roots, found, k, n - 1);
    }
}

/// Resolves an existing path of a request inside one of the roots.
///
/// A relative path is tried below every root in turn, a full one as it is. `found` says what
/// stands at each of `path_candidates`; its paths are canonical, so neither `..` nor a symbolic
/// link leads out of a root.
pub fn resolve_existing_within(
    roots: &Vec<String>,
    user_path: &str,
    found: &Vec<Option<Found>>,
) -> (r: Result<Found, PathRejection>)
    ensures
        match spec_resolve(text::views(roots@), user_path@, founds_view(found@)) {
            Ok(v) => r is Ok && r->Ok_0@ == v,
            Err(e) => r is Err && r->Err_0 == e,
        },
{
    asked(roots, user_path)?;
    let ghost all = text::views(roots@);
    let ghost view = founds_view(found@);
    assert(view.len() == found@.len());
    let mut why = PathRejection::NotFound;
    let mut i: usize = 0;
    while i < found.len()
        invariant
            i <= found@.len(),
            all == text::views(roots@),
            view == founds_view(found@),
            first_inside(all, view, i as int) == Err::<FoundView, PathRejection>(why),
            spec_resolve(all, user_path@, view) == first_inside(all, view, found@.len() as int),
        decreases found@.len() - i,
    {
        assert(view[i as int] == found_view(found@[i as int]));
        if let Some(object) = &found[i] {
            if is_within_any(object.path.as_str(), roots) {
                proof {
                    lemma_first_inside_kept(all, view, i + 1, found@.len() as int);
                }
                return Ok(Found { path: object.path.clone(), kind: object.kind });
            }
            why = PathRejection::OutsideRoots;
        }
        i += 1;
    }
    Err(why)
}

/// Like `spec_resolve`, and the object has to be of this kind.
pub open spec fn spec_resolve_kind(
    roots: Seq<Seq<char>>,
    user_path: Seq<char>,
    found: Seq<Option<FoundView>>,
    kind: PathKind,
) -> Result<FoundView, PathRejection> {
    match spec_resolve(roots, user_path, found) {
        Err(e) => Err(e),
        Ok(f) => if f.kind == kind {
            Ok(f)
        } else {
            Err(PathRejection::Invalid)
        },
    }
}

/// The same as [`resolve_existing_within`], but the object has to be a file.
pub fn resolve_existing_file_within(
    roots: &Vec<String>,
    user_path: &str,
    found: &Vec<Option<Found>>,
) -> (r: Result<Found, PathRejection>)
    ensures
        match spec_resolve_kind(
            text::views(roots@),
            user_path@,
            founds_view(found@),
            PathKind::File,
        ) {
            Ok(v) => r is Ok && r->Ok_0@ == v,
            Err(e) => r is Err && r->Err_0 == e,
        },
{
    let resolved = resolve_existing_within(roots, user_path, found)?;
    if resolved.kind == PathKind::File {
        Ok(resolved)
    } else {
        Err(PathRejection::Invalid)
    }
}

/// The same as [`resolve_existing_within`], but the object has to be a folder.
pub fn resolve_existing_dir_within(
    roots: &Vec<String>,
    user_path: &str,
    found: &Vec<Option<Found>>,
) -> (r: Result<Found, PathRejection>)
    ensures
        match spec_resolve_kind(
            text::views(roots@),
            user_path@,
            founds_view(found@),
            PathKind::Folder,
        ) {
            Ok(v) => r is Ok && r->Ok_0@ == v,
            Err(e) => r is Err && r->Err_0 == e,
        },
{
    let resolved = resolve_existing_within(roots, user_path, found)?;
    if resolved.kind == PathKind::Folder {
        Ok(resolved)
    } else {
        Err(PathRejection::Invalid)
    }
}

proof fn lemma_inside(roots: Seq<Seq<char>>, found: Seq<Option<FoundView>>, n: int)
    ensures
        first_inside(roots, found, n) matches Ok(f) ==> within_any(f.path, roots),
    decreases n,
{
    if n > 0 {
        lemma_inside(roots, found, n - 1);
    }
}

/// A path that is accepted lies inside one of the roots.
pub proof fn law_resolved_path_is_inside_a_root(
    roots: Seq<Seq<char>>,
    user_path: Seq<char>,
    found: Seq<Option<FoundView>>,
)
    requires
        spec_resolve(roots, user_path, found) is Ok,
    ensures
        within_any(spec_resolve(roots, user_path, found)->Ok_0.path, roots),
{
    lemma_inside(roots, found, found.len() as int);
}

/// One name of a file: no separators, no zero character, neither `.` nor `..` nor nothing.
pub open spec fn plain_name(name: Seq<char>) -> bool {
    &&& name.len() > 0
    &&& name != "."@
    &&& name != ".."@
    &&& !name.contains('/')
    &&& !name.contains('\\')
    &&& !name.contains('\0')
}

/// Whether a text is one safe name of a file, without separators and `..`.
pub fn is_plain_file_name(name: &str) -> (r: bool)
    ensures
        r == plain_name(name@),
{
    !name.is_empty() && !text::same(name, ".") && !text::same(name, "..")
        && !text::contains_char(name, '/') && !text::contains_char(name, '\\')
        && !text::contains_char(name, '\0')
}

} // verus!
