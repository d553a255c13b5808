//! What holds of paths, in terms of their components.

use vstd::prelude::*;

use crate::files;
use crate::files::{ComponentsView, PathView, SEPARATOR};
use crate::text;

verus! {

proof fn lemma_name_has_no_separator(path: PathView)
    ensures
        forall|k: int| files::name_start(path) <= k < path.len() ==> #[trigger] path[k] != SEPARATOR,
    decreases path.len(),
{
    files::lemma_name_start(path);
    if path.len() > 0 && path.last() != SEPARATOR {
        let rest = path.drop_last();
        lemma_name_has_no_separator(rest);
        assert forall|k: int| files::name_start(path) <= k < path.len() implies #[trigger] path[k]
            != SEPARATOR by {
            if k < rest.len() {
                assert(path[k] == rest[k]);
            }
        }
    }
}

proof fn lemma_last_name(path: PathView)
    requires
        files::parent(path) is Some,
    ensures
        0 <= files::name_start(files::trimmed(path)) < files::trimmed(path).len(),
        files::last_name(path).len() > 0,
        forall|k: int|
            0 <= k < files::last_name(path).len() ==> #[trigger] files::last_name(path)[k]
                != SEPARATOR,
{
    let body = files::trimmed(path);
    files::lemma_trimmed(path);
    files::lemma_name_start(body);
    lemma_name_has_no_separator(body);
    if body.len() == 1 && body.last() == SEPARATOR {
        assert(body =~= files::root_component());
    }
    assert forall|k: int| 0 <= k < files::last_name(path).len() implies #[trigger] files::last_name(
        path,
    )[k] != SEPARATOR by {
        assert(files::last_name(path)[k] == body[files::name_start(body) + k]);
    }
}

/// The components of a path are names without separators. Only an absolute path has one in front that
/// is the root.
pub proof fn components_are_names(path: PathView)
    ensures
        files::components(path).len() > 0 && files::components(path)[0] == files::root_component()
            <==> path.len() > 0 && path[0] == SEPARATOR,
        forall|i: int|
            0 <= i < files::components(path).len() ==> (#[trigger] files::components(path)[i]).len()
                > 0,
        forall|i: int, k: int|
            0 <= i < files::components(path).len() && 0 <= k < files::components(path)[i].len() && (i
                > 0 || path[0] != SEPARATOR) ==> #[trigger] files::components(path)[i][k]
                != SEPARATOR,
    decreases path.len(),
{
    files::lemma_trimmed(path);
    files::lemma_parent_is_shorter(path);
    let body = files::trimmed(path);
    let all = files::components(path);
    match files::parent(path) {
        Some(directory) => {
            let start = files::name_start(body);
            let head = body.take(start);
            components_are_names(directory);
            lemma_last_name(path);
            files::lemma_trimmed(head);
            assert(all == files::components(directory).push(files::last_name(path)));
            assert(path[0] == body[0]);
            if start > 0 {
                assert(head[0] == body[0]);
                assert(directory[0] == head[0]);
                if files::components(directory).len() == 0 {
                    lemma_no_components(directory);
                }
            } else {
                assert(directory.len() == 0);
                lemma_no_components(directory);
                assert(files::last_name(path)[0] == body[0]);
            }
            assert forall|i: int| 0 <= i < all.len() implies (#[trigger] all[i]).len() > 0 by {
                if i < all.len() - 1 {
                    assert(all[i] == files::components(directory)[i]);
                }
            }
            assert forall|i: int, k: int|
                0 <= i < all.len() && 0 <= k < all[i].len() && (i > 0 || path[0]
                    != SEPARATOR) implies #[trigger] all[i][k] != SEPARATOR by {
                if i < all.len() - 1 {
                    assert(all[i] == files::components(directory)[i]);
                    assert(files::components(directory)[i][k] != SEPARATOR);
                } else {
                    assert(all[i] == files::last_name(path));
                }
            }
        },
        None => {
            if body.len() > 0 {
                assert(path[0] == body[0]);
            }
        },
    }
}

proof fn lemma_no_components(path: PathView)
    ensures
        files::components(path).len() == 0 <==> path.len() == 0,
{
    files::lemma_trimmed(path);
}

/// The directory of a path has all its components but the last one. A path without components has
/// none, nor does the root.
pub proof fn directory_has_all_but_the_last_component(path: PathView)
    ensures
        match files::parent(path) {
            Some(directory) => files::components(path).len() > 0 && files::components(directory)
                == files::components(path).drop_last(),
            None => files::components(path).len() == 0 || files::components(path) == seq![
                files::root_component(),
            ],
        },
{
    if let Some(directory) = files::parent(path) {
        assert(files::components(path).drop_last() =~= files::components(directory));
    }
}

proof fn lemma_skip_trimmed(path: PathView, count: int)
    requires
        0 <= count < files::trimmed(path).len(),
    ensures
        files::trimmed(path.skip(count)) == files::trimmed(path).skip(count),
    decreases path.len(),
{
    files::lemma_trimmed(path);
    let rest = path.skip(count);
    if files::trimmed(path).len() < path.len() {
        let shorter = path.drop_last();
        assert(files::trimmed(path) == files::trimmed(shorter));
        lemma_skip_trimmed(shorter, count);
        assert(rest.drop_last() =~= shorter.skip(count));
        assert(rest.last() == path.last());
        assert(rest[rest.len() - 2] == path[path.len() - 2]);
    } else {
        assert(files::trimmed(path) =~= path);
        assert(rest.last() == path.last());
        if rest.len() >= 2 {
            assert(rest[rest.len() - 2] == path[path.len() - 2]);
        }
        lemma_stays(path);
    }
}

proof fn lemma_stays(path: PathView)
    requires
        files::trimmed(path).len() == path.len(),
    ensures
        path.len() >= 2 ==> path.last() != SEPARATOR && !(path.last() == 0x2e && path[path.len() - 2]
            == SEPARATOR),
{
    files::lemma_trimmed(path.drop_last());
}

proof fn lemma_skip_name_start(path: PathView, count: int)
    requires
        0 <= count <= files::name_start(path),
    ensures
        files::name_start(path.skip(count)) == files::name_start(path) - count,
    decreases path.len(),
{
    files::lemma_name_start(path);
    let rest = path.skip(count);
    if path.len() > 0 && path.last() != SEPARATOR {
        assert(rest.last() == path.last());
        assert(rest.drop_last() =~= path.drop_last().skip(count));
        lemma_skip_name_start(path.drop_last(), count);
    } else if rest.len() > 0 {
        assert(rest.last() == path.last());
    }
}

proof fn lemma_one_name(name: Seq<u8>)
    requires
        name.len() > 0,
        name[0] != SEPARATOR,
        files::trimmed(name) == name,
        files::name_start(name) == 0,
    ensures
        files::components(name) == seq![name],
{
    assert(name.take(0) =~= Seq::empty());
    lemma_no_components(Seq::empty());
    assert(name.skip(0) =~= name);
    assert(files::trimmed(Seq::empty()) == Seq::<u8>::empty());
    assert(files::components(name) =~= seq![name]);
}

proof fn lemma_stripped(path: PathView, n: nat)
    requires
        1 <= n < files::components(path).len(),
    ensures
        ({
            let body = files::trimmed(path);
            let start = files::component_start(path, n);
            &&& 0 <= start < body.len()
            &&& body[start] != SEPARATOR
            &&& files::components(body.skip(start)) == files::components(path).skip(n as int)
        }),
    decreases path.len(),
{
    files::lemma_trimmed(path);
    files::lemma_parent_is_shorter(path);
    lemma_last_name(path);
    let body = files::trimmed(path);
    let directory = files::parent(path)->0;
    let begin = files::name_start(body);
    let head = body.take(begin);
    let start = files::component_start(path, n);
    let all = files::components(path);
    files::lemma_trimmed(head);
    lemma_name_has_no_separator(body);
    if files::components(directory).len() > n {
        lemma_stripped(directory, n);
        assert(files::trimmed(directory) == directory);
        assert(body[start] == directory[start]);
        let rest = body.skip(start);
        lemma_skip_trimmed(body, start);
        lemma_skip_name_start(body, start);
        assert(rest[0] == body[start]);
        assert(rest.take(begin - start) =~= head.skip(start));
        lemma_skip_trimmed(head, start);
        assert(rest.skip(begin - start) =~= body.skip(begin));
        assert(files::parent(rest) == Some(directory.skip(start)));
        assert(files::components(rest) =~= all.skip(n as int));
    } else {
        let name = body.skip(begin);
        lemma_skip_trimmed(body, begin);
        lemma_skip_name_start(body, begin);
        assert(name[0] == body[begin]);
        lemma_one_name(name);
        assert(seq![name] =~= all.skip(n as int));
    }
}

/// A path is stripped of a base that it begins with, component for component. What is left has the
/// components that follow.
pub proof fn stripped_path_is_what_follows_the_base(path: PathView, base: PathView)
    ensures
        match files::stripped(path, base) {
            Some(rest) => files::components(path) == files::components(base) + files::components(
                rest,
            ),
            None => forall|rest: ComponentsView|
                files::components(path) != #[trigger] (files::components(base) + rest),
        },
{
    let all = files::components(path);
    let prefix = files::components(base);
    let n = prefix.len();
    match files::stripped(path, base) {
        Some(rest) => {
            if n == 0 {
                files::lemma_trimmed(path);
                assert(files::components(rest) == all);
            } else if n == all.len() {
                lemma_no_components(Seq::empty());
            } else {
                lemma_stripped(path, n);
            }
            assert(all =~= all.take(n as int) + all.skip(n as int));
            assert(files::components(rest) =~= all.skip(n as int));
        },
        None => {
            assert forall|rest: ComponentsView| all != #[trigger] (prefix + rest) by {
                if all == prefix + rest {
                    assert(all.take(n as int) =~= prefix);
                }
            }
        },
    }
}

/// What was joined to a path is left when the path is stripped off, and its directory has the
/// components of the path.
pub proof fn joined_name_is_left_without_the_path(path: PathView, name: Seq<u8>)
    requires
        name.len() > 0,
        name != seq![0x2eu8],
        forall|i: int| 0 <= i < name.len() ==> name[i] != SEPARATOR,
    ensures
        files::stripped(files::joined(path, name), path) is Some,
        files::components(files::stripped(files::joined(path, name), path)->0) == seq![name],
        files::parent(files::joined(path, name)) is Some,
        files::same_path(files::parent(files::joined(path, name))->0, path),
{
    let whole = files::joined(path, name);
    files::joined_name_is_one_component(path, name);
    stripped_path_is_what_follows_the_base(whole, path);
    directory_has_all_but_the_last_component(whole);
    let prefix = files::components(path);
    let all = files::components(whole);
    assert(all =~= prefix + seq![name]);
    assert(all.drop_last() =~= prefix);
    if let Some(rest) = files::stripped(whole, path) {
        let left = files::components(rest);
        assert(left =~= (prefix + left).skip(prefix.len() as int));
        assert(seq![name] =~= all.skip(prefix.len() as int));
    }
    if files::parent(whole) is None {
        assert(all[all.len() - 1] == name);
        assert(name == files::root_component());
        assert(name[0] == SEPARATOR);
    }
}

/// The kind of a component, in the order of the kinds: the root, `.`, `..` and names.
pub open spec fn kind(component: Seq<u8>) -> int {
    if component == seq![SEPARATOR] {
        0
    } else if component == seq![0x2eu8] {
        1
    } else if component == seq![0x2eu8, 0x2eu8] {
        2
    } else {
        3
    }
}

/// Of two paths the one comes first that ends where they first differ in a component, or has the
/// lesser one there: one of a lesser kind, or the lesser name.
pub proof fn paths_are_ordered_by_their_first_difference(a: PathView, b: PathView, k: int)
    requires
        0 <= k <= files::components(a).len(),
        k <= files::components(b).len(),
        files::components(a).take(k) == files::components(b).take(k),
        k < files::components(a).len() && k < files::components(b).len() ==> files::components(a)[k]
            != files::components(b)[k],
    ensures
        files::path_lt(a, b) <==> k < files::components(b).len() && (k == files::components(a).len()
            || kind(files::components(a)[k]) < kind(files::components(b)[k]) || (kind(
            files::components(a)[k],
        ) == kind(files::components(b)[k]) && text::bytes_lt(
            files::components(a)[k],
            files::components(b)[k],
        ))),
{
    lemma_first_difference(files::components(a), files::components(b), k);
}

proof fn lemma_first_difference(a: ComponentsView, b: ComponentsView, k: int)
    requires
        0 <= k <= a.len(),
        k <= b.len(),
        a.take(k) == b.take(k),
        k < a.len() && k < b.len() ==> a[k] != b[k],
    ensures
        files::components_lt(a, b) <==> k < b.len() && (k == a.len() || kind(a[k]) < kind(b[k]) || (
        kind(a[k]) == kind(b[k]) && text::bytes_lt(a[k], b[k]))),
    decreases k,
{
    if k > 0 {
        assert(a.take(k)[0] == b.take(k)[0]);
        let (c, d) = (a.drop_first(), b.drop_first());
        assert forall|i: int| 0 <= i < k - 1 implies c[i] == d[i] by {
            assert(a.take(k)[i + 1] == b.take(k)[i + 1]);
        }
        assert(c.take(k - 1) =~= d.take(k - 1));
        lemma_first_difference(c, d, k - 1);
    }
}

} // verus!
