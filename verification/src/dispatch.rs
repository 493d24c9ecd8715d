//! What a request is answered with: the rules, in their order, and the
//! values that pass between the rules and the host that does the I/O.

use vstd::prelude::*;
use vstd::string::*;
use crate::options::Options;
use crate::path::{
    accepted_segment, append_component, is_parent_marker, joined, parent_segment_is_rejected,
    push_component, resolved_path, resolved_path_stays_below, stays_below,
};
use crate::text::{
    begins_with, chars_end_with, chars_of, ends_with, replaced, string_of, texts,
};

verus! {

/// The path of a request, as the router hands it over: the path of the URI
/// as it was sent, and its segments, split and decoded. No segments at all
/// is a request for the root.
#[derive(Debug, Clone, PartialEq, Eq)]
pub struct RequestPath {
    pub uri_path: String,
    pub segments: Vec<String>,
}

/// What a `RequestPath` stands for.
#[verifier::ext_equal]
pub struct RequestView {
    pub uri_path: Seq<char>,
    pub segments: Seq<Seq<char>>,
}

impl View for RequestPath {
    type V = RequestView;

    open spec fn view(&self) -> RequestView {
        RequestView { uri_path: self.uri_path@, segments: texts(self.segments@) }
    }
}

/// What a path denoted when it was probed.
#[derive(Debug, Clone, Copy, PartialEq, Eq, Structural)]
pub enum TargetKind {
    Directory,
    File,
    Absent,
}

/// A resolved path with what a probe found there. It belongs to one request
/// and is never kept.
#[derive(Debug, Clone, PartialEq, Eq)]
pub struct ResolvedTarget {
    pub path: String,
    pub kind: TargetKind,
}

/// What a `ResolvedTarget` stands for.
#[verifier::ext_equal]
pub struct TargetView {
    pub path: Seq<char>,
    pub kind: TargetKind,
}

impl View for ResolvedTarget {
    type V = TargetView;

    open spec fn view(&self) -> TargetView {
        TargetView { path: self.path@, kind: self.kind }
    }
}

/// The answer to a request.
#[derive(Debug, Clone, PartialEq, Eq)]
pub enum Outcome<B> {
    /// Send the client, for good, to this path of the same site.
    Redirect(String),
    /// Serve the file at this path.
    ServeFile(String),
    /// Send this rendered listing.
    RenderListing(B),
    /// Decline, so that another route may try.
    Forward,
    /// Answer that there is no such thing.
    NotFound,
}

/// What may have been resolved, as a view.
pub open spec fn resolved_view(resolved: Option<ResolvedTarget>) -> Option<TargetView> {
    match resolved {
        Some(target) => Some(target@),
        None => None,
    }
}

/// What an `Outcome` stands for.
#[verifier::ext_equal]
pub enum OutcomeView<B> {
    Redirect(Seq<char>),
    ServeFile(Seq<char>),
    RenderListing(B),
    Forward,
    NotFound,
}

impl<B> View for Outcome<B> {
    type V = OutcomeView<B>;

    open spec fn view(&self) -> OutcomeView<B> {
        match self {
            Outcome::Redirect(to) => OutcomeView::Redirect(to@),
            Outcome::ServeFile(path) => OutcomeView::ServeFile(path@),
            Outcome::RenderListing(body) => OutcomeView::RenderListing(*body),
            Outcome::Forward => OutcomeView::Forward,
            Outcome::NotFound => OutcomeView::NotFound,
        }
    }
}

/// What the host is to do next for a request.
#[derive(Debug, Clone, PartialEq, Eq)]
pub enum Action<B> {
    /// Answer with this outcome; the request is done.
    Respond(Outcome<B>),
    /// Try to open `index` as a regular file and say whether that worked.
    ProbeIndex { directory: String, index: String },
    /// Enumerate `directory` and hand over what was found.
    ReadDirectory { directory: String },
}

/// What an `Action` stands for.
#[verifier::ext_equal]
pub enum ActionView<B> {
    Respond(OutcomeView<B>),
    ProbeIndex { directory: Seq<char>, index: Seq<char> },
    ReadDirectory { directory: Seq<char> },
}

impl<B> View for Action<B> {
    type V = ActionView<B>;

    open spec fn view(&self) -> ActionView<B> {
        match self {
            Action::Respond(outcome) => ActionView::Respond(outcome@),
            Action::ProbeIndex { directory, index } => ActionView::ProbeIndex {
                directory: directory@,
                index: index@,
            },
            Action::ReadDirectory { directory } => ActionView::ReadDirectory { directory: directory@ },
        }
    }
}

/// The name of the file that stands in for a directory's listing.
pub open spec fn index_name() -> Seq<char> {
    seq!['i', 'n', 'd', 'e', 'x', '.', 'h', 't', 'm', 'l']
}

/// Where a request for a directory without the closing `/` is sent: the
/// same path with one `/` behind it.
pub open spec fn redirect_target(uri_path: Seq<char>) -> Seq<char> {
    uri_path.push('/')
}

/// The label of a directory in its listing: a `/`, the segments of the
/// request joined by `/` with every `\` written as `/`, and a closing `/`
/// unless one stands there already. It is made from the request, not from
/// the path that the request resolved to.
pub open spec fn directory_label(segments: Seq<Seq<char>>) -> Seq<char> {
    let front = seq!['/'] + replaced(joined(Seq::empty(), segments), '\\', '/');
    if ends_with(front, '/') {
        front
    } else {
        front.push('/')
    }
}

/// The first thing to do for a request, by the first of these rules that
/// applies:
///
/// * nothing resolved: forward;
/// * a directory, and directories are normalized, and the path of the URI
///   lacks the closing `/`: redirect to the path with it;
/// * a directory, and an index is served where there is one: try the index;
/// * a directory: read it, for its listing;
/// * a file: serve it;
/// * neither a directory nor a file: forward.
pub open spec fn first_action<B>(
    options: Options,
    request: RequestView,
    resolved: Option<TargetView>,
) -> ActionView<B> {
    match resolved {
        None => ActionView::Respond(OutcomeView::Forward),
        Some(target) => match target.kind {
            TargetKind::Directory => {
                if options.normalize_dirs && !ends_with(request.uri_path, '/') {
                    ActionView::Respond(OutcomeView::Redirect(redirect_target(request.uri_path)))
                } else if options.index {
                    ActionView::ProbeIndex {
                        directory: target.path,
                        index: push_component(target.path, index_name()),
                    }
                } else {
                    ActionView::ReadDirectory { directory: target.path }
                }
            },
            TargetKind::File => ActionView::Respond(OutcomeView::ServeFile(target.path)),
            TargetKind::Absent => ActionView::Respond(OutcomeView::Forward),
        },
    }
}

/// What follows the try at a directory's index: the index is served where
/// it could be opened, and the directory is read where it could not.
pub open spec fn action_after_index<B>(
    directory: Seq<char>,
    index: Seq<char>,
    openable: bool,
) -> ActionView<B> {
    if openable {
        ActionView::Respond(OutcomeView::ServeFile(index))
    } else {
        ActionView::ReadDirectory { directory }
    }
}

/// Computes `directory_label`.
pub fn label_of(segments: &Vec<String>) -> (label: String)
    ensures
        label@ == directory_label(texts(segments@)),
        begins_with(label@, '/'),
        ends_with(label@, '/'),
{
    let mut relative: String = String::new();
    let mut i: usize = 0;
    while i < segments.len()
        invariant
            i <= segments.len(),
            relative@ == joined(Seq::empty(), texts(segments@).take(i as int)),
        decreases segments.len() - i,
    {
        proof {
            let all = texts(segments@);
            assert(all.take(i + 1).drop_last() =~= all.take(i as int));
            assert(all.take(i + 1).last() == segments@[i as int]@);
        }
        append_component(&mut relative, segments[i].as_str());
        i = i + 1;
    }
    proof {
        assert(texts(segments@).take(segments.len() as int) =~= texts(segments@));
    }
    let plain = chars_of(relative.as_str());
    let mut label: Vec<char> = Vec::new();
    label.push('/');
    let mut k: usize = 0;
    while k < plain.len()
        invariant
            k <= plain.len(),
            label@ == seq!['/'] + replaced(plain@, '\\', '/').take(k as int),
        decreases plain.len() - k,
    {
        let c: char = plain[k];
        label.push(if c == '\\' { '/' } else { c });
        proof {
            let written = replaced(plain@, '\\', '/');
            assert(written.take(k + 1) =~= written.take(k as int).push(written[k as int]));
            assert(label@ =~= seq!['/'] + written.take(k + 1));
        }
        k = k + 1;
    }
    proof {
        let written = replaced(plain@, '\\', '/');
        assert(written.take(plain.len() as int) =~= written);
    }
    if !chars_end_with(&label, '/') {
        label.push('/');
    }
    string_of(&label)
}

/// A label begins and ends with `/`, whatever the segments are.
pub proof fn label_is_enclosed(segments: Seq<Seq<char>>)
    ensures
        begins_with(directory_label(segments), '/'),
        ends_with(directory_label(segments), '/'),
{
}

/// A redirect adds exactly one `/`: the path it leads to ends with `/`, is
/// the path that was sent but for that `/`, and does not end with two where
/// the path that was sent did not end with one.
pub proof fn redirect_adds_one_separator(uri_path: Seq<char>)
    ensures
        ends_with(redirect_target(uri_path), '/'),
        redirect_target(uri_path).drop_last() == uri_path,
        !ends_with(uri_path, '/') ==> !ends_with(redirect_target(uri_path).drop_last(), '/'),
{
    assert(redirect_target(uri_path).drop_last() =~= uri_path);
}

/// With directories normalized, a request for a directory without the
/// closing `/` is redirected before anything else is tried, and one with the
/// closing `/` is never redirected.
pub proof fn redirect_comes_first<B>(options: Options, request: RequestView, target: TargetView)
    requires
        options.normalize_dirs,
        target.kind == TargetKind::Directory,
    ensures
        !ends_with(request.uri_path, '/') ==> first_action::<B>(options, request, Some(target))
            == ActionView::<B>::Respond(OutcomeView::Redirect(redirect_target(request.uri_path))),
        ends_with(request.uri_path, '/') ==> !(first_action::<B>(options, request, Some(target))
            matches ActionView::Respond(OutcomeView::Redirect(_))),
{
}

/// Where no redirect is due, a directory's index is tried before the
/// directory is read if and only if the index is switched on; the index is
/// looked for directly inside the directory; one that opens is served, and
/// one that does not leaves the listing.
pub proof fn index_comes_before_listing<B>(
    options: Options,
    request: RequestView,
    target: TargetView,
)
    requires
        target.kind == TargetKind::Directory,
        !options.normalize_dirs || ends_with(request.uri_path, '/'),
    ensures
        ({
            let first = first_action::<B>(options, request, Some(target));
            let index = push_component(target.path, index_name());
            &&& options.index ==> first is ProbeIndex && first->ProbeIndex_directory == target.path
                && first->index == index
            &&& !options.index ==> first is ReadDirectory && first->ReadDirectory_directory
                == target.path
            &&& action_after_index::<B>(target.path, index, true) == ActionView::<B>::Respond(
                OutcomeView::ServeFile(index),
            )
            &&& action_after_index::<B>(target.path, index, false) is ReadDirectory
            &&& action_after_index::<B>(target.path, index, false)->ReadDirectory_directory
                == target.path
        }),
{
}

/// No rule answers that there is no such thing: what is not served,
/// listed or redirected is forwarded.
pub proof fn never_not_found<B>(
    options: Options,
    request: RequestView,
    resolved: Option<TargetView>,
    directory: Seq<char>,
    index: Seq<char>,
    openable: bool,
)
    ensures
        first_action::<B>(options, request, resolved) != ActionView::<B>::Respond(
            OutcomeView::NotFound,
        ),
        action_after_index::<B>(directory, index, openable) != ActionView::<B>::Respond(
            OutcomeView::NotFound,
        ),
{
}

/// A request with a `..` segment is forwarded, whatever the switches are: it
/// resolves to nothing, and a request that resolves to nothing is declined.
pub proof fn traversal_is_forwarded<B>(root: Seq<char>, options: Options, request: RequestView)
    requires
        exists|i: int|
            0 <= i < request.segments.len() && is_parent_marker(#[trigger] request.segments[i]),
    ensures
        resolved_path(root, request.segments, options.dot_files) is None,
        first_action::<B>(options, request, None) == ActionView::<B>::Respond(OutcomeView::Forward),
{
    parent_segment_is_rejected(root, request.segments, options.dot_files);
}

/// Every path that the rules hand to the host lies below the root, read
/// with `/` as the only separator, given that the target is what the request
/// resolved to: the file to serve, the directory to read, and the index to
/// try and to serve. What a request resolves to where `\` separates too is
/// what it resolves to here, so this holds of it as well.
pub proof fn answers_stay_below<B>(
    root: Seq<char>,
    options: Options,
    request: RequestView,
    kind: TargetKind,
)
    requires
        resolved_path(root, request.segments, options.dot_files) is Some,
    ensures
        ({
            let path = resolved_path(root, request.segments, options.dot_files)->0;
            let target = (TargetView { path, kind });
            match first_action::<B>(options, request, Some(target)) {
                ActionView::Respond(OutcomeView::ServeFile(file)) => stays_below(root, file),
                ActionView::ProbeIndex { directory, index } => {
                    &&& stays_below(root, directory)
                    &&& stays_below(root, index)
                    &&& action_after_index::<B>(directory, index, true) == ActionView::<
                        B,
                    >::Respond(OutcomeView::ServeFile(index))
                },
                ActionView::ReadDirectory { directory } => stays_below(root, directory),
                _ => true,
            }
        }),
{
    let allow = options.dot_files;
    resolved_path_stays_below(root, request.segments, allow);
    let name = index_name();
    assert(accepted_segment(name, allow)) by {
        assert(name.len() == 10);
        assert(name[0] == 'i' && name[9] == 'l');
        assert(!name.contains('/'));
    }
    let longer = request.segments.push(name);
    assert(longer.drop_last() =~= request.segments);
    assert(longer.last() == name);
    assert forall|i: int| 0 <= i < longer.len() implies accepted_segment(
        #[trigger] longer[i],
        allow,
    ) by {
        if i < request.segments.len() {
            assert(longer[i] == request.segments[i]);
        }
    }
    resolved_path_stays_below(root, longer, allow);
}

} // verus!
