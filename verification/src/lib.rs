//! Filesystem operations for request-processing pipelines: a closed set of
//! operation descriptors, the routing of each descriptor to one operating
//! system primitive, confinement of caller-supplied paths under a root
//! directory, and range-aware streaming of file contents.

use vstd::prelude::*;

pub mod http;
pub mod middleware;
pub mod path;
pub mod percent;
pub mod range;

verus! {

/// How a file is opened.
#[derive(Debug, Clone, Copy, PartialEq, Eq, Hash)]
pub enum Mode {
    /// An existing file, for reading.
    Read,
    /// An existing file, for writing at its end.
    AppendExisting,
    /// A file for writing from its start: it is created where it is missing
    /// and emptied where it exists.
    CreateOrOverwrite,
    /// A file for writing at its end: it is created where it is missing.
    CreateOrAppend,
    /// A file that does not exist yet, for writing.
    CreateNew,
}

/// The switches handed to the operating system when a file is opened.
#[derive(Debug, Clone, Copy, PartialEq, Eq, Hash)]
pub struct OpenFlags {
    pub read: bool,
    pub write: bool,
    pub append: bool,
    pub truncate: bool,
    pub create: bool,
    pub create_new: bool,
}

impl Mode {
    /// The switches that each mode stands for. Every switch that a mode does
    /// not name is off.
    pub open spec fn open_flags(self) -> OpenFlags {
        let none = OpenFlags {
            read: false,
            write: false,
            append: false,
            truncate: false,
            create: false,
            create_new: false,
        };
        match self {
            Mode::Read => OpenFlags { read: true, ..none },
            Mode::AppendExisting => OpenFlags { append: true, ..none },
            Mode::CreateOrOverwrite => OpenFlags {
                write: true,
                create: true,
                truncate: true,
                ..none
            },
            Mode::CreateOrAppend => OpenFlags { append: true, create: true, ..none },
            Mode::CreateNew => OpenFlags { write: true, create_new: true, ..none },
        }
    }

    pub fn into_open_options(self) -> (options: OpenFlags)
        ensures
            options == self.open_flags(),
    {
        let mut options = OpenFlags {
            read: false,
            write: false,
            append: false,
            truncate: false,
            create: false,
            create_new: false,
        };
        match self {
            Mode::Read => {
                options.read = true;
            },
            Mode::AppendExisting => {
                options.append = true;
            },
            Mode::CreateOrOverwrite => {
                options.write = true;
                options.create = true;
                options.truncate = true;
            },
            Mode::CreateOrAppend => {
                options.append = true;
                options.create = true;
            },
            Mode::CreateNew => {
                options.write = true;
                options.create_new = true;
            },
        }
        options
    }
}

/// A filesystem operation, with the paths it works on.
#[derive(Debug, Clone)]
pub enum Request {
    Copy { from: String, to: String },
    CreateDir { path: String, recursive: bool },
    FollowLink(String),
    GetMetadata { path: String, follow_symlinks: bool },
    HardLink { src: String, dst: String },
    Open { mode: Mode, path: String },
    RemoveDir { path: String, recursive: bool },
    RemoveFile(String),
    Rename { from: String, to: String },
    SetPermissions { path: String, perm: u32 },
    SymLink { src: String, dst: String },
    SymlinkDir { src: String, dst: String },
    SymlinkFile { src: String, dst: String },
    Exists(String),
}

/// One call of the operating system, with its arguments.
#[derive(Debug, Clone)]
pub enum Primitive {
    Copy { from: String, to: String },
    CreateDir { path: String },
    CreateDirAll { path: String },
    TryExists { path: String },
    ReadLink { path: String },
    Metadata { path: String },
    SymlinkMetadata { path: String },
    HardLink { src: String, dst: String },
    Open { options: OpenFlags, path: String },
    RemoveDir { path: String },
    RemoveDirAll { path: String },
    RemoveFile { path: String },
    Rename { from: String, to: String },
    SetPermissions { path: String, perm: u32 },
    Symlink { src: String, dst: String },
    SymlinkDir { src: String, dst: String },
    SymlinkFile { src: String, dst: String },
}

/// The shape of the answer to a request.
#[derive(Debug, Clone, Copy, PartialEq, Eq, Structural)]
pub enum Reply {
    /// Nothing but success.
    Done,
    /// The number of bytes copied.
    Copied,
    /// An open file.
    File,
    /// The metadata of a path.
    Metadata,
    /// Whether a path exists.
    Exists,
    /// Where a link points to.
    PointsAt,
}

/// What a request asks for, apart from the paths it names.
pub enum Operation {
    Copy,
    CreateDir { recursive: bool },
    FollowLink,
    GetMetadata { follow_symlinks: bool },
    HardLink,
    Open { mode: Mode },
    RemoveDir { recursive: bool },
    RemoveFile,
    Rename,
    SetPermissions { perm: u32 },
    SymLink,
    SymlinkDir,
    SymlinkFile,
    Exists,
}

impl Request {
    /// The operation that the request asks for, with its parameters.
    pub open spec fn operation(self) -> Operation {
        match self {
            Request::Copy { .. } => Operation::Copy,
            Request::CreateDir { recursive, .. } => Operation::CreateDir { recursive },
            Request::FollowLink(_) => Operation::FollowLink,
            Request::GetMetadata { follow_symlinks, .. } => Operation::GetMetadata {
                follow_symlinks,
            },
            Request::HardLink { .. } => Operation::HardLink,
            Request::Open { mode, .. } => Operation::Open { mode },
            Request::RemoveDir { recursive, .. } => Operation::RemoveDir { recursive },
            Request::RemoveFile(_) => Operation::RemoveFile,
            Request::Rename { .. } => Operation::Rename,
            Request::SetPermissions { perm, .. } => Operation::SetPermissions { perm },
            Request::SymLink { .. } => Operation::SymLink,
            Request::SymlinkDir { .. } => Operation::SymlinkDir,
            Request::SymlinkFile { .. } => Operation::SymlinkFile,
            Request::Exists(_) => Operation::Exists,
        }
    }

    /// The paths that the request names, in the order of its fields.
    pub open spec fn paths(self) -> Seq<Seq<char>> {
        match self {
            Request::Copy { from, to } => seq![from@, to@],
            Request::CreateDir { path, .. } => seq![path@],
            Request::FollowLink(path) => seq![path@],
            Request::GetMetadata { path, .. } => seq![path@],
            Request::HardLink { src, dst } => seq![src@, dst@],
            Request::Open { path, .. } => seq![path@],
            Request::RemoveDir { path, .. } => seq![path@],
            Request::RemoveFile(path) => seq![path@],
            Request::Rename { from, to } => seq![from@, to@],
            Request::SetPermissions { path, .. } => seq![path@],
            Request::SymLink { src, dst } => seq![src@, dst@],
            Request::SymlinkDir { src, dst } => seq![src@, dst@],
            Request::SymlinkFile { src, dst } => seq![src@, dst@],
            Request::Exists(path) => seq![path@],
        }
    }

    /// The call of the operating system that carries the request out.
    pub open spec fn primitive(self) -> Primitive {
        match self {
            Request::Copy { from, to } => Primitive::Copy { from, to },
            Request::CreateDir { path, recursive } => if recursive {
                Primitive::CreateDirAll { path }
            } else {
                Primitive::CreateDir { path }
            },
            Request::Exists(path) => Primitive::TryExists { path },
            Request::FollowLink(path) => Primitive::ReadLink { path },
            Request::GetMetadata { path, follow_symlinks } => if follow_symlinks {
                Primitive::Metadata { path }
            } else {
                Primitive::SymlinkMetadata { path }
            },
            Request::HardLink { src, dst } => Primitive::HardLink { src, dst },
            Request::Open { mode, path } => Primitive::Open { options: mode.open_flags(), path },
            Request::RemoveDir { path, recursive } => if recursive {
                Primitive::RemoveDirAll { path }
            } else {
                Primitive::RemoveDir { path }
            },
            Request::RemoveFile(path) => Primitive::RemoveFile { path },
            Request::Rename { from, to } => Primitive::Rename { from, to },
            Request::SetPermissions { path, perm } => Primitive::SetPermissions { path, perm },
            Request::SymLink { src, dst } => Primitive::Symlink { src, dst },
            Request::SymlinkDir { src, dst } => Primitive::SymlinkDir { src, dst },
            Request::SymlinkFile { src, dst } => Primitive::SymlinkFile { src, dst },
        }
    }
}

impl Primitive {
    /// The paths that the call is made on, in the order of its arguments.
    pub open spec fn paths(self) -> Seq<Seq<char>> {
        match self {
            Primitive::Copy { from, to } => seq![from@, to@],
            Primitive::CreateDir { path } => seq![path@],
            Primitive::CreateDirAll { path } => seq![path@],
            Primitive::TryExists { path } => seq![path@],
            Primitive::ReadLink { path } => seq![path@],
            Primitive::Metadata { path } => seq![path@],
            Primitive::SymlinkMetadata { path } => seq![path@],
            Primitive::HardLink { src, dst } => seq![src@, dst@],
            Primitive::Open { path, .. } => seq![path@],
            Primitive::RemoveDir { path } => seq![path@],
            Primitive::RemoveDirAll { path } => seq![path@],
            Primitive::RemoveFile { path } => seq![path@],
            Primitive::Rename { from, to } => seq![from@, to@],
            Primitive::SetPermissions { path, .. } => seq![path@],
            Primitive::Symlink { src, dst } => seq![src@, dst@],
            Primitive::SymlinkDir { src, dst } => seq![src@, dst@],
            Primitive::SymlinkFile { src, dst } => seq![src@, dst@],
        }
    }

    /// The shape of the answer that the call's result is given.
    pub open spec fn answer(self) -> Reply {
        match self {
            Primitive::Copy { .. } => Reply::Copied,
            Primitive::TryExists { .. } => Reply::Exists,
            Primitive::ReadLink { .. } => Reply::PointsAt,
            Primitive::Metadata { .. } => Reply::Metadata,
            Primitive::SymlinkMetadata { .. } => Reply::Metadata,
            Primitive::Open { .. } => Reply::File,
            _ => Reply::Done,
        }
    }

    pub fn reply(&self) -> (reply: Reply)
        ensures
            reply == self.answer(),
    {
        match self {
            Primitive::Copy { .. } => Reply::Copied,
            Primitive::TryExists { .. } => Reply::Exists,
            Primitive::ReadLink { .. } => Reply::PointsAt,
            Primitive::Metadata { .. } | Primitive::SymlinkMetadata { .. } => Reply::Metadata,
            Primitive::Open { .. } => Reply::File,
            _ => Reply::Done,
        }
    }
}

/// What a call of the operating system returned. A file is an `F`, the
/// metadata of a path an `M`.
#[derive(Debug)]
pub enum Outcome<F, M> {
    Unit,
    Count(u64),
    Flag(bool),
    Target(String),
    Record(M),
    Handle(F),
}

/// The answer to a request. A file is an `F`, the metadata of a path an `M`.
#[derive(Debug)]
pub enum Response<F, M> {
    Done,
    Copied(u64),
    File(F),
    Directory(Vec<(String, M)>),
    Metadata(M),
    Exists(bool),
    PointsAt(String),
}

impl<F, M> Outcome<F, M> {
    /// The shape of the answer that holds the outcome.
    pub open spec fn shape(self) -> Reply {
        match self {
            Outcome::Unit => Reply::Done,
            Outcome::Count(_) => Reply::Copied,
            Outcome::Flag(_) => Reply::Exists,
            Outcome::Target(_) => Reply::PointsAt,
            Outcome::Record(_) => Reply::Metadata,
            Outcome::Handle(_) => Reply::File,
        }
    }

    /// The answer that holds the outcome.
    pub open spec fn response(self) -> Response<F, M> {
        match self {
            Outcome::Unit => Response::Done,
            Outcome::Count(count) => Response::Copied(count),
            Outcome::Flag(exists) => Response::Exists(exists),
            Outcome::Target(target) => Response::PointsAt(target),
            Outcome::Record(metadata) => Response::Metadata(metadata),
            Outcome::Handle(file) => Response::File(file),
        }
    }
}

impl<F, M> Response<F, M> {
    /// The answer to a call that returns nothing but success.
    pub fn done(_unit: ()) -> (response: Self)
        ensures
            response is Done,
    {
        Response::Done
    }

    /// Gives the outcome of a call the shape that was picked for it. There
    /// is no answer where the outcome does not fit the shape.
    pub fn answer(reply: Reply, outcome: Outcome<F, M>) -> (response: Option<Self>)
        ensures
            response == (if outcome.shape() == reply {
                Some(outcome.response())
            } else {
                None
            }),
    {
        match (reply, outcome) {
            (Reply::Done, Outcome::Unit) => Some(Response::done(())),
            (Reply::Copied, Outcome::Count(count)) => Some(Response::Copied(count)),
            (Reply::Exists, Outcome::Flag(exists)) => Some(Response::Exists(exists)),
            (Reply::PointsAt, Outcome::Target(target)) => Some(Response::PointsAt(target)),
            (Reply::Metadata, Outcome::Record(metadata)) => Some(Response::Metadata(metadata)),
            (Reply::File, Outcome::Handle(file)) => Some(Response::File(file)),
            _ => None,
        }
    }
}

/// The service that carries requests out on the filesystem as it is.
#[derive(Debug, Clone, Copy)]
pub struct FileSystem;

impl FileSystem {
    /// Routes a request to the one call of the operating system that carries
    /// it out, with the request's paths and parameters as its arguments.
    pub fn call(&mut self, req: Request) -> (primitive: Primitive)
        ensures
            primitive == req.primitive(),
    {
        match req {
            Request::Copy { from, to } => Primitive::Copy { from, to },
            Request::CreateDir { path, recursive: true } => Primitive::CreateDirAll { path },
            Request::CreateDir { path, recursive: false } => Primitive::CreateDir { path },
            Request::Exists(path) => Primitive::TryExists { path },
            Request::FollowLink(path) => Primitive::ReadLink { path },
            Request::GetMetadata { path, follow_symlinks: true } => Primitive::Metadata { path },
            Request::GetMetadata { path, follow_symlinks: false } => Primitive::SymlinkMetadata {
                path,
            },
            Request::HardLink { src, dst } => Primitive::HardLink { src, dst },
            Request::Open { mode, path } => Primitive::Open {
                options: mode.into_open_options(),
                path,
            },
            Request::RemoveDir { path, recursive: true } => Primitive::RemoveDirAll { path },
            Request::RemoveDir { path, recursive: false } => Primitive::RemoveDir { path },
            Request::RemoveFile(path) => Primitive::RemoveFile { path },
            Request::Rename { from, to } => Primitive::Rename { from, to },
            Request::SetPermissions { path, perm } => Primitive::SetPermissions { path, perm },
            Request::SymLink { src, dst } => Primitive::Symlink { src, dst },
            Request::SymlinkDir { src, dst } => Primitive::SymlinkDir { src, dst },
            Request::SymlinkFile { src, dst } => Primitive::SymlinkFile { src, dst },
        }
    }
}

/// Routing neither adds, drops nor changes a path: the call is made on the
/// paths of the request, in their order.
pub proof fn lemma_call_keeps_paths(req: Request)
    ensures
        req.primitive().paths() == req.paths(),
{
}

} // verus!
