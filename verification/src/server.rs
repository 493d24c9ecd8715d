//! The file server: its configuration, and the steps by which it answers a
//! request while the host does the I/O in between.

use vstd::prelude::*;
use vstd::string::*;
use crate::dispatch::{
    action_after_index, directory_label, first_action, index_name, label_of, resolved_view, Action,
    Outcome, RequestPath, ResolvedTarget, TargetKind,
};
use crate::listing::{
    directory_listing, entry_names, list, readable_entries, shown_names, DirectoryUnreadable,
    Enumeration,
};
use crate::options::Options;
use crate::path::{
    append_component, resolve_path, resolve_windows_path, resolved_path, resolved_windows_path,
};
use crate::text::{chars_end_with, chars_of, texts};

verus! {

/// The rank that a server's route has unless another is set.
pub const DEFAULT_RANK: isize = 10;

/// The root meant for a server was not a directory when it was probed. No
/// server is made from such a root: the host stops, and this is what it says.
#[derive(Debug, Clone, PartialEq, Eq)]
pub struct ConfigurationError {
    pub root: String,
}

impl ConfigurationError {
    /// The error in words.
    pub fn message(&self) -> (text: String)
        ensures
            text@ == "ListingFileServer path '"@ + self.root@ + "' is not a directory."@,
    {
        let mut text: String = String::from_str("ListingFileServer path '");
        text.append(self.root.as_str());
        text.append("' is not a directory.");
        text
    }
}

/// `body` is what `renderer` made of the label and the names.
pub open spec fn rendered_by<R, B>(
    renderer: R,
    label: Seq<char>,
    names: Seq<Seq<char>>,
    body: B,
) -> bool where R: Fn(String, Vec<String>) -> B {
    exists|label_text: String, name_texts: Vec<String>|
        {
            &&& label_text@ == label
            &&& texts(name_texts@) == names
            &&& #[trigger] call_ensures(renderer, (label_text, name_texts), body)
        }
}

/// `renderer` takes the label with the names.
pub open spec fn renders<R, B>(renderer: R, label: Seq<char>, names: Seq<Seq<char>>) -> bool where
    R: Fn(String, Vec<String>) -> B,
 {
    forall|label_text: String, name_texts: Vec<String>|
        label_text@ == label && texts(name_texts@) == names ==> #[trigger] call_requires(
            renderer,
            (label_text, name_texts),
        )
}

/// A file server that answers a request for a directory with a listing of it.
///
/// No switch is on unless it is asked for: a listing is what this server is
/// for, so an index file takes its place only where `index` is set. A server
/// should not be put before files that are meant to stay hidden.
#[derive(Debug, Clone)]
pub struct ListingFileServer<R> {
    root: String,
    options: Options,
    rank: isize,
    template_renderer: R,
}

impl<R> ListingFileServer<R> {
    /// The directory below which the server resolves every request.
    pub closed spec fn root_view(&self) -> Seq<char> {
        self.root@
    }

    /// The switches of the server.
    pub closed spec fn options_view(&self) -> Options {
        self.options
    }

    /// The rank of the server's route.
    pub closed spec fn rank_view(&self) -> isize {
        self.rank
    }

    /// The function that renders a listing.
    pub closed spec fn renderer_view(&self) -> R {
        self.template_renderer
    }

    /// A server below `root` with no switch on.
    ///
    /// `root_kind` is what a probe of `root` found, and it must be a
    /// directory: a server is never made for anything else, so that a bad
    /// root stops the host before the first request.
    pub fn from(root: &str, root_kind: TargetKind, template_renderer: R) -> (r: Self)
        requires
            root_kind == TargetKind::Directory,
        ensures
            r.root_view() == root@,
            r.options_view() == (Options { index: false, dot_files: false, normalize_dirs: false }),
            r.rank_view() == DEFAULT_RANK,
            r.renderer_view() == template_renderer,
    {
        ListingFileServer::new(root, root_kind, Options::none(), template_renderer)
    }

    /// A server below `root` with the given switches.
    ///
    /// `root_kind` is what a probe of `root` found, and it must be a
    /// directory: a server is never made for anything else, so that a bad
    /// root stops the host before the first request.
    pub fn new(root: &str, root_kind: TargetKind, options: Options, template_renderer: R) -> (r:
        Self)
        requires
            root_kind == TargetKind::Directory,
        ensures
            r.root_view() == root@,
            r.options_view() == options,
            r.rank_view() == DEFAULT_RANK,
            r.renderer_view() == template_renderer,
    {
        ListingFileServer { root: root.to_owned(), options, rank: DEFAULT_RANK, template_renderer }
    }

    /// The same server with the rank of its route set to `rank`.
    pub fn rank(self, rank: isize) -> (r: Self)
        ensures
            r.rank_view() == rank,
            r.root_view() == self.root_view(),
            r.options_view() == self.options_view(),
            r.renderer_view() == self.renderer_view(),
    {
        let mut server = self;
        server.rank = rank;
        server
    }

    /// The directory below which the server resolves every request.
    pub fn root(&self) -> (r: &str)
        ensures
            r@ == self.root_view(),
    {
        self.root.as_str()
    }

    /// The switches of the server.
    pub fn options(&self) -> (r: Options)
        ensures
            r == self.options_view(),
    {
        self.options
    }

    /// The rank of the server's route.
    pub fn route_rank(&self) -> (r: isize)
        ensures
            r == self.rank_view(),
    {
        self.rank
    }

    /// Resolves a request to a path below the root, or to no match, for a
    /// host where `/` is the only separator.
    ///
    /// Nothing is probed: the caller finds out what the path denotes and
    /// hands both to `handle`.
    pub fn resolve(&self, request: &RequestPath) -> (r: Option<String>)
        ensures
            match r {
                Some(path) => resolved_path(
                    self.root_view(),
                    request@.segments,
                    self.options_view().dot_files,
                ) == Some(path@),
                None => resolved_path(
                    self.root_view(),
                    request@.segments,
                    self.options_view().dot_files,
                ) is None,
            },
    {
        resolve_path(self.root.as_str(), &request.segments, self.options.dot_files)
    }

    /// Resolves a request as `resolve` does, for a host where `\` separates
    /// components too and `:` sets off a drive: a segment that holds either
    /// is no match there.
    pub fn resolve_on_windows(&self, request: &RequestPath) -> (r: Option<String>)
        ensures
            match r {
                Some(path) => resolved_windows_path(
                    self.root_view(),
                    request@.segments,
                    self.options_view().dot_files,
                ) == Some(path@),
                None => resolved_windows_path(
                    self.root_view(),
                    request@.segments,
                    self.options_view().dot_files,
                ) is None,
            },
    {
        resolve_windows_path(self.root.as_str(), &request.segments, self.options.dot_files)
    }

    /// The first step for a request: the answer, where the rules give one
    /// from what is known, and otherwise what the host is to find out.
    pub fn handle<B>(&self, request: &RequestPath, resolved: Option<ResolvedTarget>) -> (action:
        Action<B>)
        ensures
            action@ == first_action::<B>(self.options_view(), request@, resolved_view(resolved)),
    {
        let target = match resolved {
            Some(target) => target,
            None => {
                return Action::Respond(Outcome::Forward);
            },
        };
        match target.kind {
            TargetKind::Directory => {
                let sent = chars_of(request.uri_path.as_str());
                if self.options.normalize_dirs && !chars_end_with(&sent, '/') {
                    let mut to: String = request.uri_path.clone();
                    to.push('/');
                    Action::Respond(Outcome::Redirect(to))
                } else if self.options.index {
                    let mut index: String = target.path.clone();
                    proof {
                        reveal_strlit("index.html");
                        assert("index.html"@ =~= index_name());
                    }
                    append_component(&mut index, "index.html");
                    Action::ProbeIndex { directory: target.path, index }
                } else {
                    Action::ReadDirectory { directory: target.path }
                }
            },
            TargetKind::File => Action::Respond(Outcome::ServeFile(target.path)),
            TargetKind::Absent => Action::Respond(Outcome::Forward),
        }
    }

    /// The step after the try at a directory's index.
    pub fn index_probed<B>(&self, directory: String, index: String, openable: bool) -> (action:
        Action<B>)
        ensures
            action@ == action_after_index::<B>(directory@, index@, openable),
    {
        if openable {
            Action::Respond(Outcome::ServeFile(index))
        } else {
            Action::ReadDirectory { directory }
        }
    }

    /// The step after a directory was read: its listing, rendered.
    ///
    /// Fails where the directory could not be enumerated: it was there a
    /// moment ago, so this is no case for another route. Otherwise the
    /// renderer is called once, with the label of the request and the shown
    /// names of the listing, and what it returns is the answer.
    pub fn directory_read<B>(
        &self,
        request: &RequestPath,
        found: Enumeration,
    ) -> (r: Result<Outcome<B>, DirectoryUnreadable>) where R: Fn(String, Vec<String>) -> B
        requires
            found matches Ok(entries) ==> renders(
                self.renderer_view(),
                directory_label(request@.segments),
                shown_names(directory_listing(readable_entries(entries@))),
            ),
        ensures
            match found {
                Ok(entries) => r matches Ok(Outcome::RenderListing(body)) && rendered_by(
                    self.renderer_view(),
                    directory_label(request@.segments),
                    shown_names(directory_listing(readable_entries(entries@))),
                    body,
                ),
                Err(_) => r is Err,
            },
    {
        let listing = match list(found) {
            Ok(listing) => listing,
            Err(error) => {
                return Err(error);
            },
        };
        let label = label_of(&request.segments);
        let names = entry_names(&listing);
        let body = (self.template_renderer)(label, names);
        Ok(Outcome::RenderListing(body))
    }
}

} // verus!
