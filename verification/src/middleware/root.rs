//! Confinement: every path of a request is resolved against a root directory,
//! and a request with a path that does not resolve to a place under the root
//! is not passed on.

use crate::path::{components, in_resolved_form, is_resolved, join, lies_under, starts_with};
use crate::Request;
use vstd::prelude::*;

verus! {

/// `std::io::Error`, carried from the operating system to the caller as it
/// is.
#[verifier::external_type_specification]
#[verifier::external_body]
pub struct ExIoError(std::io::Error);

/// Calls `std::path::Path::canonicalize`, which asks the operating system
/// for the absolute form of a path with every symbolic link followed and
/// every `.` and `..` resolved. What comes back depends on what is on disk,
/// so the contract claims nothing of it. A resolved path that is not UTF-8
/// comes back as an error of kind `InvalidData`.
#[verifier::external_body]
pub(crate) fn canonicalize(path: &str) -> (resolved: Result<String, std::io::Error>) {
    let resolved = std::path::Path::new(path).canonicalize()?;
    resolved.into_os_string().into_string().map_err(
        |_| std::io::Error::from(std::io::ErrorKind::InvalidData),
    )
}

/// The root directory that a confining service is made with.
#[derive(Debug, Clone, PartialEq, Eq, PartialOrd, Ord, Hash)]
pub struct RootLayer(String);

/// A service that confines the paths of each request under `root` before it
/// hands the request to `inner`.
#[derive(Debug, Clone)]
pub struct Root<S> {
    root: String,
    inner: S,
}

/// What the confining service does with a request.
#[derive(Debug, Clone)]
pub enum Verdict {
    /// The request, with every path resolved under the root, goes to the
    /// inner service.
    Forward(Request),
    /// Some path of the request was rejected: the answer is "not found",
    /// whatever the reason was.
    NotFound,
}

/// Calls `std::io::Error::from` on `std::io::ErrorKind::InvalidData`, which
/// makes the error for a resolution that is not in resolved form. Nothing is
/// claimed of the error.
#[verifier::external_body]
pub(crate) fn invalid_data() -> (error: std::io::Error) {
    std::io::Error::from(std::io::ErrorKind::InvalidData)
}

/// Keeps a resolved path only if it is in resolved form, that is absolute
/// and without a `..`, and lies under `root`.
pub fn confine(root: &str, resolved: Option<String>) -> (confined: Option<String>)
    ensures
        confined == (match resolved {
            Some(path) if is_resolved(path@) && lies_under(path@, root@) => resolved,
            _ => None,
        }),
{
    match resolved {
        Some(path) => {
            if in_resolved_form(path.as_str()) && starts_with(path.as_str(), root) {
                Some(path)
            } else {
                None
            }
        },
        None => None,
    }
}

/// Resolves `subpath` against `root`. The slashes that open `subpath` are
/// dropped, the rest is appended to `root`, and the operating system resolves
/// the result. The resolved path comes back only if it lies under `root`: a
/// path that cannot be resolved and a path that resolves to a place outside
/// the root are both rejected, and nothing tells the two apart. A path that
/// comes back is absolute and holds no `..`.
pub fn make_relative(root: &str, subpath: &str) -> (confined: Option<String>)
    ensures
        confined matches Some(path) ==> is_resolved(path@) && lies_under(path@, root@),
{
    let target = join(root, subpath);
    // The operating system decides whether the target resolves, and to
    // what. A target that does not resolve is rejected like one that
    // resolves to a place outside the root.
    let resolved = canonicalize(target.as_str());
    confine(root, resolved.ok())
}

impl RootLayer {
    /// The root directory.
    pub closed spec fn root(self) -> Seq<char> {
        self.0@
    }

    /// A layer whose root is `canonical`, which the caller has resolved.
    pub fn rooted_at(canonical: String) -> (layer: RootLayer)
        ensures
            layer.root() == canonical@,
    {
        RootLayer(canonical)
    }

    /// Resolves `path` to its canonical, absolute form and returns a layer
    /// for that root. Fails with the operating system's error where the path
    /// cannot be resolved. The root of a layer that comes back is absolute
    /// and holds no `..`.
    pub fn new(path: &str) -> (layer: Result<RootLayer, std::io::Error>)
        ensures
            layer matches Ok(rooted) ==> is_resolved(rooted.root()),
    {
        let resolved = canonicalize(path);
        // The operating system decides. What it says is kept as it is: the
        // root of the layer is the resolved path, the error is its error.
        RootLayer::from_resolved(resolved)
    }

    /// The root directory.
    pub fn path(&self) -> (root: &str)
        ensures
            root@ == self.root(),
    {
        self.0.as_str()
    }

    /// Puts the confinement in front of `inner`.
    pub fn layer<S>(&self, inner: S) -> (service: Root<S>)
        ensures
            service.root() == self.root(),
            service.inner() == inner,
    {
        Root { root: self.0.clone(), inner }
    }
}

impl Request {
    /// Every path of the request is absolute and holds no `..`.
    pub open spec fn all_resolved(self) -> bool {
        forall|i: int| 0 <= i < self.paths().len() ==> is_resolved(#[trigger] self.paths()[i])
    }

    /// Every path of the request lies under `root`.
    pub open spec fn confined_under(self, root: Seq<char>) -> bool {
        forall|i: int| 0 <= i < self.paths().len() ==> lies_under(#[trigger] self.paths()[i], root)
    }

    /// The first path that the request names.
    pub fn first_path(&self) -> (path: &str)
        ensures
            self.paths().len() >= 1,
            path@ == self.paths()[0],
    {
        match self {
            Request::Copy { from, .. } => from.as_str(),
            Request::CreateDir { path, .. } => path.as_str(),
            Request::FollowLink(path) => path.as_str(),
            Request::GetMetadata { path, .. } => path.as_str(),
            Request::HardLink { src, .. } => src.as_str(),
            Request::Open { path, .. } => path.as_str(),
            Request::RemoveDir { path, .. } => path.as_str(),
            Request::RemoveFile(path) => path.as_str(),
            Request::Rename { from, .. } => from.as_str(),
            Request::SetPermissions { path, .. } => path.as_str(),
            Request::SymLink { src, .. } => src.as_str(),
            Request::SymlinkDir { src, .. } => src.as_str(),
            Request::SymlinkFile { src, .. } => src.as_str(),
            Request::Exists(path) => path.as_str(),
        }
    }

    /// The second path that the request names, if it names two.
    pub fn second_path(&self) -> (path: Option<&str>)
        ensures
            match path {
                Some(second) => self.paths().len() == 2 && second@ == self.paths()[1],
                None => self.paths().len() == 1,
            },
    {
        match self {
            Request::Copy { to, .. } => Some(to.as_str()),
            Request::HardLink { dst, .. } => Some(dst.as_str()),
            Request::Rename { to, .. } => Some(to.as_str()),
            Request::SymLink { dst, .. } => Some(dst.as_str()),
            Request::SymlinkDir { dst, .. } => Some(dst.as_str()),
            Request::SymlinkFile { dst, .. } => Some(dst.as_str()),
            _ => None,
        }
    }

    /// The paths of the request once `first` and `second` have taken the
    /// place of the ones it names; none where a path it names has no
    /// replacement.
    pub open spec fn replaced_paths(self, first: Option<String>, second: Option<String>) -> Option<
        Seq<Seq<char>>,
    > {
        match (first, second) {
            (Some(a), _) if self.paths().len() == 1 => Some(seq![a@]),
            (Some(a), Some(b)) => Some(seq![a@, b@]),
            _ => None,
        }
    }

    /// The same operation on other paths: `first` takes the place of the
    /// first path and `second` of the second, where the request names two.
    /// There is no request where a path or its replacement is missing.
    pub fn with_resolved(self, first: Option<String>, second: Option<String>) -> (rebuilt: Option<
        Request,
    >)
        ensures
            match rebuilt {
                Some(request) => request.operation() == self.operation() && Some(request.paths())
                    == self.replaced_paths(first, second),
                None => self.replaced_paths(first, second) is None,
            },
    {
        let a = match first {
            Some(path) => path,
            None => {
                return None;
            },
        };
        Some(
            match self {
                Request::Copy { .. } => Request::Copy { from: a, to: second? },
                Request::CreateDir { recursive, .. } => Request::CreateDir { path: a, recursive },
                Request::Exists(_) => Request::Exists(a),
                Request::FollowLink(_) => Request::FollowLink(a),
                Request::GetMetadata { follow_symlinks, .. } => Request::GetMetadata {
                    path: a,
                    follow_symlinks,
                },
                Request::HardLink { .. } => Request::HardLink { src: a, dst: second? },
                Request::Open { mode, .. } => Request::Open { mode, path: a },
                Request::RemoveDir { recursive, .. } => Request::RemoveDir { path: a, recursive },
                Request::RemoveFile(_) => Request::RemoveFile(a),
                Request::Rename { .. } => Request::Rename { from: a, to: second? },
                Request::SetPermissions { perm, .. } => Request::SetPermissions { path: a, perm },
                Request::SymLink { .. } => Request::SymLink { src: a, dst: second? },
                Request::SymlinkDir { .. } => Request::SymlinkDir { src: a, dst: second? },
                Request::SymlinkFile { .. } => Request::SymlinkFile { src: a, dst: second? },
            },
        )
    }

    /// Resolves every path of the request against `root`. The request comes
    /// back with the resolved paths in place of the ones it named, and only
    /// if each of them lies under `root`. The paths of a request that comes
    /// back are absolute and hold no `..`.
    pub fn adjust_paths(self, root: &str) -> (adjusted: Option<Request>)
        ensures
            adjusted matches Some(request) ==> {
                &&& request.operation() == self.operation()
                &&& request.paths().len() == self.paths().len()
                &&& request.confined_under(root@)
                &&& request.all_resolved()
            },
    {
        let first = make_relative(root, self.first_path());
        if first.is_none() {
            return None;
        }
        let second = match self.second_path() {
            Some(path) => make_relative(root, path),
            None => None,
        };
        self.with_resolved(first, second)
    }
}

impl<S> Root<S> {
    /// The root directory.
    pub closed spec fn root(self) -> Seq<char> {
        self.root@
    }

    /// The service behind the confinement.
    pub closed spec fn inner(self) -> S {
        self.inner
    }

    /// The service behind the confinement.
    pub fn inner_mut(&mut self) -> (inner: &mut S)
        ensures
            *inner == old(self).inner(),
            final(self).root() == old(self).root(),
            final(self).inner() == *final(inner),
    {
        &mut self.inner
    }

    /// Confines the paths of a request under the root. The request is
    /// forwarded only with every path resolved to a place under the root;
    /// else the verdict is "not found".
    pub fn call(&mut self, req: Request) -> (verdict: Verdict)
        ensures
            *final(self) == *old(self),
            verdict matches Verdict::Forward(request) ==> {
                &&& request.operation() == req.operation()
                &&& request.paths().len() == req.paths().len()
                &&& request.confined_under(old(self).root())
                &&& request.all_resolved()
            },
    {
        Verdict::of(req.adjust_paths(self.root.as_str()))
    }
}

impl RootLayer {
    /// The layer that comes of resolving a root. A resolved path becomes the
    /// root of the layer as it is, provided that it is in resolved form:
    /// absolute, and without a `..`. A path in another form is refused
    /// with an error of kind `InvalidData`. An error of the operating system
    /// is handed on as it is.
    pub fn from_resolved(resolved: Result<String, std::io::Error>) -> (layer: Result<
        RootLayer,
        std::io::Error,
    >)
        ensures
            match resolved {
                Ok(canonical) => if is_resolved(canonical@) {
                    layer matches Ok(rooted) && rooted.root() == canonical@
                } else {
                    layer is Err
                },
                Err(error) => layer matches Err(handed) && handed == error,
            },
    {
        match resolved {
            Ok(canonical) => {
                if in_resolved_form(canonical.as_str()) {
                    Ok(RootLayer::rooted_at(canonical))
                } else {
                    Err(invalid_data())
                }
            },
            Err(error) => Err(error),
        }
    }
}

impl Verdict {
    /// The verdict on a request whose paths have been resolved: it is
    /// forwarded as it came out of the resolution, and it is "not found"
    /// where the resolution rejected it.
    pub fn of(adjusted: Option<Request>) -> (verdict: Verdict)
        ensures
            verdict == (match adjusted {
                Some(request) => Verdict::Forward(request),
                None => Verdict::NotFound,
            }),
    {
        match adjusted {
            Some(request) => Verdict::Forward(request),
            None => Verdict::NotFound,
        }
    }
}

/// A confined path descends from the root: where the root has a component
/// at all, each component of the path is a component of the root or a plain
/// name after it, so that no `..` leads out of the root again.
pub proof fn lemma_confined_path_descends(path: Seq<char>, root: Seq<char>)
    requires
        is_resolved(path),
        lies_under(path, root),
    ensures
        components(root).len() <= components(path).len(),
        forall|i: int|
            0 <= i < components(root).len() ==> (#[trigger] components(path)[i]) == components(
                root,
            )[i],
        forall|i: int|
            1 <= i && components(root).len() <= i < components(path).len() ==> (
            #[trigger] components(path)[i]) is Normal,
{
    let whole = components(path);
    let base = components(root);
    assert forall|i: int| 0 <= i < base.len() implies (#[trigger] whole[i]) == base[i] by {
        assert(whole.subrange(0, base.len() as int)[i] == whole[i]);
    }
}

/// No path reaches the operating system but through the root: the call that
/// carries out a request whose paths lie under `root` is made on those
/// paths, and so on paths under `root`.
pub proof fn lemma_confined_request_makes_confined_call(request: Request, root: Seq<char>)
    requires
        request.confined_under(root),
    ensures
        request.primitive().paths() == request.paths(),
        forall|i: int|
            0 <= i < request.primitive().paths().len() ==> lies_under(
                #[trigger] request.primitive().paths()[i],
                root,
            ),
{
    crate::lemma_call_keeps_paths(request);
}

} // verus!
