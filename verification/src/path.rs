//! From the segments of a request to a path below the root: which segments
//! are let through, how they are joined to the root, and why the result
//! cannot leave the root.
//!
//! A path is a text with `/` between its components, and what is said here
//! of paths that stay below the root is said of such texts. That is how a
//! host reads them where `/` is the only separator. Where `\` separates too
//! and `:` sets off a drive, the stricter rules with `windows` in their names
//! are the ones to use: they let neither through.

use vstd::prelude::*;
use vstd::string::*;
use crate::text::{
    begins_with, chars_begin_with, chars_contain, chars_end_with, chars_of, ends_with, texts,
};

verus! {

/// The segment `..`, which names the parent directory.
pub open spec fn is_parent_marker(segment: Seq<char>) -> bool {
    segment == seq!['.', '.']
}

/// The rule for one segment of a request. A segment is let through unless
///
/// * it is `..`, whether or not dot files are allowed;
/// * it begins with `.` and dot files are not allowed;
/// * it begins with `*`;
/// * it ends with `:`, `>` or `<`;
/// * it holds a `/`, which would start a path of its own.
pub open spec fn accepted_segment(segment: Seq<char>, allow_dotfiles: bool) -> bool {
    &&& !is_parent_marker(segment)
    &&& (allow_dotfiles || !begins_with(segment, '.'))
    &&& !begins_with(segment, '*')
    &&& !ends_with(segment, ':')
    &&& !ends_with(segment, '>')
    &&& !ends_with(segment, '<')
    &&& !segment.contains('/')
}

/// Every segment of the request is let through.
pub open spec fn accepted_segments(segments: Seq<Seq<char>>, allow_dotfiles: bool) -> bool {
    forall|i: int| 0 <= i < segments.len() ==> accepted_segment(#[trigger] segments[i], allow_dotfiles)
}

/// `base` with `component` as one more component: a `/` goes between them
/// unless `base` is empty or already ends with one.
pub open spec fn push_component(base: Seq<char>, component: Seq<char>) -> Seq<char> {
    if base.len() == 0 || ends_with(base, '/') {
        base + component
    } else {
        base.push('/') + component
    }
}

/// `root` with each of `segments` pushed onto it in turn.
pub open spec fn joined(root: Seq<char>, segments: Seq<Seq<char>>) -> Seq<char>
    decreases segments.len(),
{
    if segments.len() == 0 {
        root
    } else {
        push_component(joined(root, segments.drop_last()), segments.last())
    }
}

/// What a request resolves to: the segments joined to the root where every
/// one of them is let through, and no match where one is not.
pub open spec fn resolved_path(
    root: Seq<char>,
    segments: Seq<Seq<char>>,
    allow_dotfiles: bool,
) -> Option<Seq<char>> {
    if accepted_segments(segments, allow_dotfiles) {
        Some(joined(root, segments))
    } else {
        None
    }
}

/// The rule for one segment on a host where `\` separates components too
/// and `:` sets off a drive or a stream: the segment passes
/// `accepted_segment` and holds neither `\` nor `:`.
pub open spec fn accepted_windows_segment(segment: Seq<char>, allow_dotfiles: bool) -> bool {
    &&& accepted_segment(segment, allow_dotfiles)
    &&& !segment.contains('\\')
    &&& !segment.contains(':')
}

/// Every segment of the request is let through on such a host.
pub open spec fn accepted_windows_segments(segments: Seq<Seq<char>>, allow_dotfiles: bool) -> bool {
    forall|i: int|
        0 <= i < segments.len() ==> accepted_windows_segment(#[trigger] segments[i], allow_dotfiles)
}

/// What a request resolves to on such a host: the segments joined to the
/// root where every one of them is let through there, and no match where
/// one is not.
pub open spec fn resolved_windows_path(
    root: Seq<char>,
    segments: Seq<Seq<char>>,
    allow_dotfiles: bool,
) -> Option<Seq<char>> {
    if accepted_windows_segments(segments, allow_dotfiles) {
        Some(joined(root, segments))
    } else {
        None
    }
}

/// Behind `root`, `path` holds no `\` and no `:`, so that `/` is all that
/// parts its components there, whatever the host.
pub open spec fn plain_below(root: Seq<char>, path: Seq<char>) -> bool {
    forall|i: int| root.len() <= i < path.len() ==> #[trigger] path[i] != '\\' && path[i] != ':'
}

/// How one segment moves a walk that starts at the root: `..` one level up,
/// `.` and the empty segment nowhere, any other segment one level down.
pub open spec fn step_of(segment: Seq<char>) -> int {
    if is_parent_marker(segment) {
        -1
    } else if segment.len() == 0 || segment == seq!['.'] {
        0
    } else {
        1
    }
}

/// How far below the root a walk along `segments` ends. Negative: above it.
pub open spec fn depth_after(segments: Seq<Seq<char>>) -> int
    decreases segments.len(),
{
    if segments.len() == 0 {
        0
    } else {
        depth_after(segments.drop_last()) + step_of(segments.last())
    }
}

/// Somewhere along `segments` a walk from the root stands above the root.
pub open spec fn climbs_out(segments: Seq<Seq<char>>) -> bool {
    exists|k: int| 0 <= k <= segments.len() && depth_after(#[trigger] segments.take(k)) < 0
}

/// `path` holds `..` as a whole component that starts at index `i`.
pub open spec fn parent_component_at(path: Seq<char>, i: int) -> bool {
    &&& 0 <= i
    &&& i + 2 <= path.len()
    &&& path[i] == '.'
    &&& path[i + 1] == '.'
    &&& (i == 0 || path[i - 1] == '/')
    &&& (i + 2 == path.len() || path[i + 2] == '/')
}

/// `path` lies below `root`, read with `/` as the only separator: it begins
/// with `root`, what follows is set off from `root` by a `/` (unless `root`
/// is empty or brings its own), and no component of what follows is `..`.
pub open spec fn stays_below(root: Seq<char>, path: Seq<char>) -> bool {
    &&& root.len() <= path.len()
    &&& path.take(root.len() as int) == root
    &&& (path.len() > root.len() ==> root.len() == 0 || ends_with(root, '/')
        || path[root.len() as int] == '/')
    &&& forall|i: int| root.len() <= i ==> !parent_component_at(path, i)
}

/// Decides `accepted_segment`.
pub fn segment_accepted(segment: &str, allow_dotfiles: bool) -> (r: bool)
    ensures
        r == accepted_segment(segment@, allow_dotfiles),
{
    let chars = chars_of(segment);
    if chars.len() == 2 && chars[0] == '.' && chars[1] == '.' {
        proof {
            assert(chars@ =~= seq!['.', '.']);
        }
        return false;
    }
    if !allow_dotfiles && chars_begin_with(&chars, '.') {
        return false;
    }
    !chars_begin_with(&chars, '*') && !chars_end_with(&chars, ':') && !chars_end_with(&chars, '>')
        && !chars_end_with(&chars, '<') && !chars_contain(&chars, '/')
}

/// Decides `accepted_windows_segment`.
pub fn windows_segment_accepted(segment: &str, allow_dotfiles: bool) -> (r: bool)
    ensures
        r == accepted_windows_segment(segment@, allow_dotfiles),
{
    let chars = chars_of(segment);
    segment_accepted(segment, allow_dotfiles) && !chars_contain(&chars, '\\') && !chars_contain(
        &chars,
        ':',
    )
}

/// Pushes `component` onto `path` as `push_component` says.
pub fn append_component(path: &mut String, component: &str)
    ensures
        final(path)@ == push_component(old(path)@, component@),
{
    let chars = chars_of(path.as_str());
    if chars.len() > 0 && !chars_end_with(&chars, '/') {
        path.push('/');
    }
    path.append(component);
}

/// Resolves the decoded segments of a request against `root`.
///
/// Returns the joined path where every segment is let through, and `None`
/// (no match, so that another route may try) as soon as one is not. Nothing
/// is read from the file system: what the path denotes is for the caller to
/// probe.
pub fn resolve_path(root: &str, segments: &Vec<String>, allow_dotfiles: bool) -> (r: Option<String>)
    ensures
        match r {
            Some(path) => resolved_path(root@, texts(segments@), allow_dotfiles) == Some(path@),
            None => resolved_path(root@, texts(segments@), allow_dotfiles) is None,
        },
{
    let mut path: String = root.to_owned();
    let mut i: usize = 0;
    while i < segments.len()
        invariant
            i <= segments.len(),
            path@ == joined(root@, texts(segments@).take(i as int)),
            accepted_segments(texts(segments@).take(i as int), allow_dotfiles),
        decreases segments.len() - i,
    {
        let segment: &str = segments[i].as_str();
        proof {
            let all = texts(segments@);
            assert(all[i as int] == segment@);
            assert(all.take(i + 1).drop_last() =~= all.take(i as int));
            assert(all.take(i + 1).last() == segment@);
        }
        if !segment_accepted(segment, allow_dotfiles) {
            return None;
        }
        append_component(&mut path, segment);
        i = i + 1;
    }
    proof {
        assert(texts(segments@).take(segments.len() as int) =~= texts(segments@));
    }
    Some(path)
}

/// Resolves the decoded segments of a request against `root` on a host
/// where `\` separates components too and `:` sets off a drive.
///
/// Returns the joined path where every segment is let through there, and
/// `None` as soon as one is not. Nothing is read from the file system.
pub fn resolve_windows_path(root: &str, segments: &Vec<String>, allow_dotfiles: bool) -> (r: Option<
    String,
>)
    ensures
        match r {
            Some(path) => resolved_windows_path(root@, texts(segments@), allow_dotfiles) == Some(
                path@,
            ),
            None => resolved_windows_path(root@, texts(segments@), allow_dotfiles) is None,
        },
{
    let mut path: String = root.to_owned();
    let mut i: usize = 0;
    while i < segments.len()
        invariant
            i <= segments.len(),
            path@ == joined(root@, texts(segments@).take(i as int)),
            accepted_windows_segments(texts(segments@).take(i as int), allow_dotfiles),
        decreases segments.len() - i,
    {
        let segment: &str = segments[i].as_str();
        proof {
            let all = texts(segments@);
            assert(all[i as int] == segment@);
            assert(all.take(i + 1).drop_last() =~= all.take(i as int));
            assert(all.take(i + 1).last() == segment@);
        }
        if !windows_segment_accepted(segment, allow_dotfiles) {
            return None;
        }
        append_component(&mut path, segment);
        i = i + 1;
    }
    proof {
        assert(texts(segments@).take(segments.len() as int) =~= texts(segments@));
    }
    Some(path)
}

/// A request with a `..` segment resolves to no match on either kind of
/// host, whatever is allowed of dot files and wherever the segment would
/// lead.
pub proof fn parent_segment_is_rejected(
    root: Seq<char>,
    segments: Seq<Seq<char>>,
    allow_dotfiles: bool,
)
    requires
        exists|i: int| 0 <= i < segments.len() && is_parent_marker(#[trigger] segments[i]),
    ensures
        resolved_path(root, segments, allow_dotfiles) is None,
        resolved_windows_path(root, segments, allow_dotfiles) is None,
{
    let i = choose|i: int| 0 <= i < segments.len() && is_parent_marker(#[trigger] segments[i]);
    assert(!accepted_segment(segments[i], allow_dotfiles));
    assert(!accepted_windows_segment(segments[i], allow_dotfiles));
}

/// A walk along segments that are all let through never stands above its
/// start.
proof fn accepted_walk_stays_down(segments: Seq<Seq<char>>, allow_dotfiles: bool)
    requires
        accepted_segments(segments, allow_dotfiles),
    ensures
        depth_after(segments) >= 0,
    decreases segments.len(),
{
    if segments.len() > 0 {
        let front = segments.drop_last();
        assert forall|i: int| 0 <= i < front.len() implies accepted_segment(
            #[trigger] front[i],
            allow_dotfiles,
        ) by {
            assert(front[i] == segments[i]);
        }
        accepted_walk_stays_down(front, allow_dotfiles);
        assert(accepted_segment(segments[segments.len() - 1], allow_dotfiles));
    }
}

/// A request whose segments would lead a walk above the root resolves to no
/// match on either kind of host, whatever is allowed of dot files.
pub proof fn escaping_request_is_rejected(
    root: Seq<char>,
    segments: Seq<Seq<char>>,
    allow_dotfiles: bool,
)
    requires
        climbs_out(segments),
    ensures
        resolved_path(root, segments, allow_dotfiles) is None,
        resolved_windows_path(root, segments, allow_dotfiles) is None,
{
    if accepted_windows_segments(segments, allow_dotfiles) {
        assert forall|i: int| 0 <= i < segments.len() implies accepted_segment(
            #[trigger] segments[i],
            allow_dotfiles,
        ) by {
            assert(accepted_windows_segment(segments[i], allow_dotfiles));
        }
    }
    if accepted_segments(segments, allow_dotfiles) {
        let k = choose|k: int| 0 <= k <= segments.len() && depth_after(#[trigger] segments.take(k)) < 0;
        let front = segments.take(k);
        assert forall|i: int| 0 <= i < front.len() implies accepted_segment(
            #[trigger] front[i],
            allow_dotfiles,
        ) by {
            assert(front[i] == segments[i]);
        }
        accepted_walk_stays_down(front, allow_dotfiles);
    }
}

/// Pushing a component that is let through keeps a path below the root.
proof fn push_stays_below(root: Seq<char>, path: Seq<char>, segment: Seq<char>, allow_dotfiles: bool)
    requires
        stays_below(root, path),
        accepted_segment(segment, allow_dotfiles),
    ensures
        stays_below(root, push_component(path, segment)),
{
    let next = push_component(path, segment);
    let start = next.len() - segment.len();
    assert(next.take(root.len() as int) =~= path.take(root.len() as int));
    assert forall|j: int| 0 <= j < segment.len() implies next[start + j] == segment[j] by {}
    assert forall|j: int| 0 <= j < path.len() implies next[j] == path[j] by {}
    assert forall|i: int| root.len() <= i implies !parent_component_at(next, i) by {
        if parent_component_at(next, i) {
            if i + 2 <= path.len() {
                assert(parent_component_at(path, i));
            } else if i >= start {
                if i > start {
                    assert(segment[i - 1 - start] == '/');
                    assert(segment.contains('/'));
                } else if i + 2 < next.len() {
                    assert(segment[2] == '/');
                    assert(segment.contains('/'));
                } else {
                    assert(segment =~= seq!['.', '.']);
                }
            }
        }
    }
}

/// Whatever a request resolves to lies below the root, read with `/` as the
/// only separator: no choice of segments leads out of it. For a host where
/// `\` separates too, see `windows_path_stays_below`.
pub proof fn resolved_path_stays_below(
    root: Seq<char>,
    segments: Seq<Seq<char>>,
    allow_dotfiles: bool,
)
    requires
        accepted_segments(segments, allow_dotfiles),
    ensures
        resolved_path(root, segments, allow_dotfiles) == Some(joined(root, segments)),
        stays_below(root, joined(root, segments)),
    decreases segments.len(),
{
    if segments.len() == 0 {
        assert(root.take(root.len() as int) =~= root);
    } else {
        let front = segments.drop_last();
        assert forall|i: int| 0 <= i < front.len() implies accepted_segment(
            #[trigger] front[i],
            allow_dotfiles,
        ) by {
            assert(front[i] == segments[i]);
        }
        resolved_path_stays_below(root, front, allow_dotfiles);
        assert(accepted_segment(segments[segments.len() - 1], allow_dotfiles));
        push_stays_below(root, joined(root, front), segments.last(), allow_dotfiles);
    }
}

/// What a request resolves to where `\` separates too is what it resolves
/// to elsewhere, so that all that holds of the one holds of the other; and
/// behind the root it holds no `\` and no `:`, so that it lies below the
/// root on such a host as well.
pub proof fn windows_path_stays_below(
    root: Seq<char>,
    segments: Seq<Seq<char>>,
    allow_dotfiles: bool,
)
    requires
        accepted_windows_segments(segments, allow_dotfiles),
    ensures
        resolved_windows_path(root, segments, allow_dotfiles) == Some(joined(root, segments)),
        resolved_path(root, segments, allow_dotfiles) == Some(joined(root, segments)),
        stays_below(root, joined(root, segments)),
        plain_below(root, joined(root, segments)),
    decreases segments.len(),
{
    assert forall|i: int| 0 <= i < segments.len() implies accepted_segment(
        #[trigger] segments[i],
        allow_dotfiles,
    ) by {
        assert(accepted_windows_segment(segments[i], allow_dotfiles));
    }
    resolved_path_stays_below(root, segments, allow_dotfiles);
    if segments.len() > 0 {
        let front = segments.drop_last();
        let segment = segments.last();
        assert forall|i: int| 0 <= i < front.len() implies accepted_windows_segment(
            #[trigger] front[i],
            allow_dotfiles,
        ) by {
            assert(front[i] == segments[i]);
        }
        windows_path_stays_below(root, front, allow_dotfiles);
        assert(accepted_windows_segment(segments[segments.len() - 1], allow_dotfiles));
        let before = joined(root, front);
        let after = joined(root, segments);
        let start = after.len() - segment.len();
        assert forall|i: int| root.len() <= i < after.len() implies #[trigger] after[i] != '\\'
            && after[i] != ':' by {
            if i < before.len() {
                assert(after[i] == before[i]);
            } else if i >= start {
                assert(after[i] == segment[i - start]);
                assert(segment.contains(after[i]));
            }
        }
    }
}

} // verus!
