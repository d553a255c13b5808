//! File paths, and their components.

use vstd::prelude::*;
use vstd::utf8::*;

use crate::text;

verus! {

/// The text that `String::from_utf8_lossy` gives for bytes.
pub uninterp spec fn lossy_text(bytes: Seq<u8>) -> Seq<char>;

/// What separates the components of a path.
pub const SEPARATOR: u8 = 0x2f;

/// A file path, as it was written.
#[derive(Debug)]
pub struct FilePath {
    pub bytes: Vec<u8>,
}

/// The mathematical counterpart of [`FilePath`].
pub type PathView = Seq<u8>;

/// The components of a path: names, and in front of those of an absolute path `/`.
pub type ComponentsView = Seq<Seq<u8>>;

impl View for FilePath {
    type V = PathView;

    open spec fn view(&self) -> PathView {
        self.bytes@
    }
}

/// The view of an optional path.
pub open spec fn optional_path(path: Option<FilePath>) -> Option<PathView> {
    match path {
        Some(path) => Some(path@),
        None => None,
    }
}

/// The component in front of those of an absolute path.
pub open spec fn root_component() -> Seq<u8> {
    seq![SEPARATOR]
}

/// The path up to the end of its last component: neither a separator nor a `.` behind a separator
/// that follows it is part of a component.
pub open spec fn trimmed(path: PathView) -> PathView
    decreases path.len(),
{
    if path.len() >= 2 && (path.last() == SEPARATOR || (path.last() == 0x2e && path[path.len() - 2]
        == SEPARATOR)) {
        trimmed(path.drop_last())
    } else {
        path
    }
}

/// Where the text behind the last separator begins.
pub open spec fn name_start(path: PathView) -> int
    decreases path.len(),
{
    if path.len() == 0 || path.last() == SEPARATOR {
        path.len() as int
    } else {
        name_start(path.drop_last())
    }
}

/// The last component of a path that has a parent.
pub open spec fn last_name(path: PathView) -> Seq<u8> {
    trimmed(path).skip(name_start(trimmed(path)))
}

/// The path without its last component: there is none for a path that has no components or only
/// the root.
pub open spec fn parent(path: PathView) -> Option<PathView> {
    if trimmed(path).len() == 0 || trimmed(path) == root_component() {
        None
    } else {
        Some(trimmed(trimmed(path).take(name_start(trimmed(path)))))
    }
}

/// The components of a path. Repeated separators and a `.` that is not in front make no component.
pub open spec fn components(path: PathView) -> ComponentsView
    decreases path.len(),
{
    proof {
        lemma_parent_is_shorter(path);
    }
    match parent(path) {
        Some(directory) => components(directory).push(last_name(path)),
        None => if trimmed(path).len() == 0 {
            Seq::empty()
        } else {
            seq![root_component()]
        },
    }
}

/// Where the component with the index `n` begins. It is not the root.
pub open spec fn component_start(path: PathView, n: nat) -> int
    decreases path.len(),
{
    proof {
        lemma_parent_is_shorter(path);
    }
    match parent(path) {
        Some(directory) => if components(directory).len() > n {
            component_start(directory, n)
        } else {
            name_start(trimmed(path))
        },
        None => 0,
    }
}

/// Two paths have the same components.
pub open spec fn same_path(a: PathView, b: PathView) -> bool {
    components(a) == components(b)
}

/// What follows the components of `base` in `path`, if `path` begins with them.
pub open spec fn stripped(path: PathView, base: PathView) -> Option<PathView> {
    let all = components(path);
    let prefix = components(base);
    if prefix.len() <= all.len() && all.take(prefix.len() as int) == prefix {
        if prefix.len() == 0 {
            Some(trimmed(path))
        } else if prefix.len() == all.len() {
            Some(Seq::empty())
        } else {
            Some(trimmed(path).skip(component_start(path, prefix.len())))
        }
    } else {
        None
    }
}

/// The path `tail` as seen from `path`: behind it, or alone if it is absolute.
pub open spec fn joined(path: PathView, tail: Seq<u8>) -> PathView {
    if tail.len() > 0 && tail[0] == SEPARATOR {
        tail
    } else if path.len() > 0 && path.last() != SEPARATOR {
        path.push(SEPARATOR) + tail
    } else {
        path + tail
    }
}

/// How a path is displayed: as it was written.
pub open spec fn path_text(path: PathView) -> Seq<char> {
    lossy_text(path)
}

/// The rank of the kind of a component: the root, `.`, `..`, a name.
pub open spec fn component_rank(component: Seq<u8>) -> int {
    if component == root_component() {
        0
    } else if component == seq![0x2eu8] {
        1
    } else if component == seq![0x2eu8, 0x2eu8] {
        2
    } else {
        3
    }
}

/// The order of components: by kind, and names by their bytes.
pub open spec fn component_lt(a: Seq<u8>, b: Seq<u8>) -> bool {
    component_rank(a) < component_rank(b) || (component_rank(a) == component_rank(b)
        && text::bytes_lt(a, b))
}

/// The lexicographic order of components.
pub open spec fn components_lt(a: ComponentsView, b: ComponentsView) -> bool
    decreases a.len(),
{
    if b.len() == 0 {
        false
    } else if a.len() == 0 {
        true
    } else if a[0] != b[0] {
        component_lt(a[0], b[0])
    } else {
        components_lt(a.drop_first(), b.drop_first())
    }
}

/// The order of paths: that of their components.
pub open spec fn path_lt(a: PathView, b: PathView) -> bool {
    components_lt(components(a), components(b))
}

/// The position of the last dot of a file name, if it has one.
pub open spec fn last_dot(name: Seq<u8>) -> Option<int>
    decreases name.len(),
{
    if name.len() == 0 {
        None
    } else if name.last() == 0x2e {
        Some(name.len() - 1)
    } else {
        last_dot(name.drop_last())
    }
}

/// The position of the dot in front of the extension of a file name: the last dot, unless it is
/// the first character. `..` is no file name.
pub open spec fn extension_dot(name: Seq<u8>) -> Option<int> {
    if name == seq![0x2eu8, 0x2eu8] {
        None
    } else {
        match last_dot(name) {
            Some(dot) => if dot > 0 {
                Some(dot)
            } else {
                None
            },
            None => None,
        }
    }
}

/// The extension of the last component of a path, if it has one.
pub open spec fn extension(path: PathView) -> Option<Seq<u8>> {
    let all = components(path);
    if all.len() == 0 {
        None
    } else {
        match extension_dot(all.last()) {
            Some(dot) => Some(all.last().skip(dot + 1)),
            None => None,
        }
    }
}

/// The components of the path up to the last dot of its last component, if that has an extension. A
/// last component of which only `.` is left counts only where it is the whole path.
pub open spec fn up_to_last_dot(path: PathView) -> ComponentsView {
    let all = components(path);
    if all.len() == 0 {
        all
    } else {
        match extension_dot(all.last()) {
            Some(dot) => {
                let stem = all.last().take(dot);
                if stem == seq![0x2eu8] && all.len() > 1 {
                    all.drop_last()
                } else {
                    all.drop_last().push(stem)
                }
            },
            None => all,
        }
    }
}

/// The components of the path without the extension of its last component: the extension is cut off
/// first, and then the dot, unless what is left is `..`.
pub open spec fn without_extension(path: PathView) -> ComponentsView {
    match extension(path) {
        Some(extension) => up_to_last_dot(path.take(path.len() - extension.len())),
        None => components(path),
    }
}

/// The views of a list of components.
pub open spec fn component_views(list: Seq<Vec<u8>>) -> ComponentsView {
    Seq::new(list.len(), |i: int| list[i]@)
}

/// `String::from_utf8_lossy`: the text of bytes that may not be UTF-8. UTF-8 is decoded.
#[verifier::external_body]
pub(crate) fn lossy(bytes: &[u8]) -> (text: String)
    ensures
        text@ == lossy_text(bytes@),
        valid_utf8(bytes@) ==> text@ == decode_utf8(bytes@),
{
    String::from_utf8_lossy(bytes).into_owned()
}

/// `String::from_utf8`: the text whose UTF-8 encoding these bytes are, if they are one.
#[verifier::external_body]
pub(crate) fn utf8_text(bytes: Vec<u8>) -> (text: Option<String>)
    ensures
        text is Some <==> valid_utf8(bytes@),
        text matches Some(text) ==> text@ == decode_utf8(bytes@),
{
    String::from_utf8(bytes).ok()
}

/// A copy of `bytes`.
pub(crate) fn copied(bytes: &[u8]) -> (copy: Vec<u8>)
    ensures
        copy@ == bytes@,
{
    let mut copy: Vec<u8> = Vec::new();
    copy.extend_from_slice(bytes);
    assert(copy@ =~= bytes@);
    copy
}

/// The position of the last dot of a file name, if it has one.
fn find_last_dot(name: &[u8]) -> (dot: Option<usize>)
    ensures
        match (dot, last_dot(name@)) {
            (Some(dot), Some(expected)) => dot == expected && dot < name@.len(),
            (None, None) => true,
            _ => false,
        },
{
    let mut i: usize = name.len();
    assert(name@.take(i as int) =~= name@);
    while i > 0
        invariant
            i <= name@.len(),
            last_dot(name@) == last_dot(name@.take(i as int)),
        decreases i,
    {
        assert(name@.take(i as int).drop_last() =~= name@.take(i - 1));
        if name[i - 1] == 0x2e {
            return Some(i - 1);
        }
        i -= 1;
    }
    None
}

/// Tells whether a component is `..`.
fn is_parent_component(component: &[u8]) -> (parent: bool)
    ensures
        parent == (component@ == seq![0x2eu8, 0x2eu8]),
{
    let same = component.len() == 2 && component[0] == 0x2e && component[1] == 0x2e;
    assert(same ==> component@ =~= seq![0x2eu8, 0x2eu8]);
    same
}

/// Tells whether a component is `.`.
fn is_current_component(component: &[u8]) -> (current: bool)
    ensures
        current == (component@ == seq![0x2eu8]),
{
    let same = component.len() == 1 && component[0] == 0x2e;
    assert(same ==> component@ =~= seq![0x2eu8]);
    same
}

/// Tells whether a component is the root.
fn is_root_component(component: &[u8]) -> (root: bool)
    ensures
        root == (component@ == root_component()),
{
    let same = component.len() == 1 && component[0] == 0x2f;
    assert(same ==> component@ =~= root_component());
    same
}

/// The rank of the kind of a component.
fn rank(component: &[u8]) -> (rank: u8)
    ensures
        rank == component_rank(component@),
{
    if is_root_component(component) {
        0
    } else if is_current_component(component) {
        1
    } else if is_parent_component(component) {
        2
    } else {
        3
    }
}

/// The position of the dot in front of the extension of a file name.
fn find_extension_dot(name: &[u8]) -> (dot: Option<usize>)
    ensures
        match (dot, extension_dot(name@)) {
            (Some(dot), Some(expected)) => dot == expected && 0 < dot < name@.len(),
            (None, None) => true,
            _ => false,
        },
{
    if is_parent_component(name) {
        return None;
    }
    match find_last_dot(name) {
        Some(dot) => if dot > 0 {
            Some(dot)
        } else {
            None
        },
        None => None,
    }
}

/// A path up to the end of its last component is a part of it, and has nothing left to be cut off.
pub proof fn lemma_trimmed(path: PathView)
    ensures
        trimmed(path).len() <= path.len(),
        trimmed(path) == path.take(trimmed(path).len() as int),
        trimmed(trimmed(path)) == trimmed(path),
        trimmed(path).len() >= 2 ==> trimmed(path).last() != SEPARATOR,
        path.len() > 0 ==> trimmed(path).len() > 0,
    decreases path.len(),
{
    if path.len() >= 2 && (path.last() == SEPARATOR || (path.last() == 0x2e && path[path.len() - 2]
        == SEPARATOR)) {
        lemma_trimmed(path.drop_last());
        assert(path.drop_last().take(trimmed(path).len() as int) =~= path.take(
            trimmed(path).len() as int,
        ));
    } else {
        assert(path.take(path.len() as int) =~= path);
    }
}

/// The text behind the last separator begins in the path, in front of its end if it does not end with a
/// separator.
pub proof fn lemma_name_start(path: PathView)
    ensures
        0 <= name_start(path) <= path.len(),
        path.len() > 0 && path.last() != SEPARATOR ==> name_start(path) < path.len(),
    decreases path.len(),
{
    if path.len() > 0 && path.last() != SEPARATOR {
        lemma_name_start(path.drop_last());
    }
}

/// The path without its last component is shorter.
pub proof fn lemma_parent_is_shorter(path: PathView)
    ensures
        parent(path) matches Some(directory) ==> directory.len() < path.len(),
{
    lemma_trimmed(path);
    let body = trimmed(path);
    if parent(path) is Some {
        if body.len() == 1 && body.last() == SEPARATOR {
            assert(body =~= root_component());
        }
        lemma_name_start(body);
        lemma_trimmed(body.take(name_start(body)));
    }
}

/// The number of bytes up to the end of the last component among the first `end` ones.
fn trimmed_len(bytes: &Vec<u8>, end: usize) -> (len: usize)
    requires
        end <= bytes@.len(),
    ensures
        len <= end,
        bytes@.take(len as int) == trimmed(bytes@.take(end as int)),
{
    let mut len: usize = end;
    while len >= 2 && (bytes[len - 1] == SEPARATOR || (bytes[len - 1] == 0x2e && bytes[len - 2]
        == SEPARATOR))
        invariant
            len <= end <= bytes@.len(),
            trimmed(bytes@.take(len as int)) == trimmed(bytes@.take(end as int)),
        decreases len,
    {
        assert(bytes@.take(len as int).drop_last() =~= bytes@.take(len - 1));
        len -= 1;
    }
    len
}

/// Where the text behind the last separator among the first `end` bytes begins.
fn find_name_start(bytes: &Vec<u8>, end: usize) -> (start: usize)
    requires
        end <= bytes@.len(),
    ensures
        start <= end,
        start == name_start(bytes@.take(end as int)),
{
    let mut start: usize = end;
    while start > 0 && bytes[start - 1] != SEPARATOR
        invariant
            start <= end <= bytes@.len(),
            name_start(bytes@.take(start as int)) == name_start(bytes@.take(end as int)),
        decreases start,
    {
        assert(bytes@.take(start as int).drop_last() =~= bytes@.take(start - 1));
        start -= 1;
    }
    start
}

/// The bytes from `from` to `to`.
fn part(bytes: &Vec<u8>, from: usize, to: usize) -> (part: Vec<u8>)
    requires
        from <= to <= bytes@.len(),
    ensures
        part@ == bytes@.subrange(from as int, to as int),
{
    copied(vstd::slice::slice_subrange(bytes.as_slice(), from, to))
}

/// Tells whether two lists of components are equal up to `count`.
fn same_components(a: &Vec<Vec<u8>>, b: &Vec<Vec<u8>>, count: usize) -> (same: bool)
    requires
        count <= a@.len(),
        count <= b@.len(),
    ensures
        same == (component_views(a@).take(count as int) == component_views(b@).take(count as int)),
{
    let ghost x = component_views(a@).take(count as int);
    let ghost y = component_views(b@).take(count as int);
    let mut i: usize = 0;
    while i < count
        invariant
            i <= count,
            count <= a@.len(),
            count <= b@.len(),
            x == component_views(a@).take(count as int),
            y == component_views(b@).take(count as int),
            forall|j: int| 0 <= j < i ==> x[j] == y[j],
        decreases count - i,
    {
        assert(x[i as int] == a@[i as int]@);
        assert(y[i as int] == b@[i as int]@);
        if !text::same_bytes(a[i].as_slice(), b[i].as_slice()) {
            return false;
        }
        i += 1;
    }
    assert(x =~= y);
    true
}

impl Clone for FilePath {
    fn clone(&self) -> (copy: FilePath)
        ensures
            copy@ == self@,
    {
        FilePath { bytes: copied(self.bytes.as_slice()) }
    }
}

impl PartialEq for FilePath {
    fn eq(&self, other: &FilePath) -> (same: bool) {
        self.same(other)
    }
}

impl vstd::std_specs::cmp::PartialEqSpecImpl for FilePath {
    open spec fn obeys_eq_spec() -> bool {
        true
    }

    open spec fn eq_spec(&self, other: &FilePath) -> bool {
        same_path(self@, other@)
    }
}

impl Eq for FilePath {

}

impl FilePath {
    /// The path without its last component.
    pub fn parent(&self) -> (path: Option<FilePath>)
        ensures
            match (path, parent(self@)) {
                (Some(path), Some(expected)) => path@ == expected,
                (None, None) => true,
                _ => false,
            },
    {
        assert(self@.take(self@.len() as int) =~= self@);
        let len = trimmed_len(&self.bytes, self.bytes.len());
        let ghost body = trimmed(self@);
        assert(body == self@.take(len as int));
        assert(len == 1 && self@[0] == SEPARATOR ==> body =~= root_component());
        if len == 0 || (len == 1 && self.bytes[0] == SEPARATOR) {
            return None;
        }
        assert(body[0] == self@[0]);
        let start = find_name_start(&self.bytes, len);
        assert(body.take(start as int) =~= self@.take(start as int));
        let end = trimmed_len(&self.bytes, start);
        assert(self@.subrange(0, end as int) =~= self@.take(end as int));
        Some(FilePath { bytes: part(&self.bytes, 0, end) })
    }

    /// The components of the path.
    pub fn components(&self) -> (list: Vec<Vec<u8>>)
        ensures
            component_views(list@) == components(self@),
        decreases self@.len(),
    {
        proof {
            lemma_parent_is_shorter(self@);
            lemma_trimmed(self@);
            lemma_name_start(trimmed(self@));
        }
        assert(self@.take(self@.len() as int) =~= self@);
        let len = trimmed_len(&self.bytes, self.bytes.len());
        let ghost body = trimmed(self@);
        assert(body == self@.take(len as int));
        match self.parent() {
            Some(directory) => {
                let mut list = directory.components();
                let ghost before = component_views(list@);
                let start = find_name_start(&self.bytes, len);
                let name = part(&self.bytes, start, len);
                assert(name@ =~= last_name(self@));
                list.push(name);
                assert(component_views(list@) =~= before.push(name@));
                list
            },
            None => {
                let mut list: Vec<Vec<u8>> = Vec::new();
                if len > 0 {
                    let mut root: Vec<u8> = Vec::new();
                    root.push(SEPARATOR);
                    assert(root@ =~= root_component());
                    list.push(root);
                }
                assert(component_views(list@) =~= components(self@));
                list
            },
        }
    }

    /// Where the component with the index `n` begins.
    fn find_component_start(&self, n: usize) -> (start: usize)
        ensures
            start == component_start(self@, n as nat),
            start <= self@.len(),
        decreases self@.len(),
    {
        proof {
            lemma_parent_is_shorter(self@);
        }
        match self.parent() {
            Some(directory) => if directory.components().len() > n {
                directory.find_component_start(n)
            } else {
                assert(self@.take(self@.len() as int) =~= self@);
                let len = trimmed_len(&self.bytes, self.bytes.len());
                find_name_start(&self.bytes, len)
            },
            None => 0,
        }
    }

    /// The path `tail` as seen from this one.
    pub fn joined(&self, tail: &[u8]) -> (path: FilePath)
        ensures
            path@ == joined(self@, tail@),
    {
        if tail.len() > 0 && tail[0] == SEPARATOR {
            return FilePath { bytes: copied(tail) };
        }
        let len = self.bytes.len();
        let mut bytes = copied(self.bytes.as_slice());
        if len > 0 && self.bytes[len - 1] != SEPARATOR {
            bytes.push(SEPARATOR);
        }
        bytes.extend_from_slice(tail);
        assert(bytes@ =~= joined(self@, tail@));
        FilePath { bytes }
    }

    /// What follows the components of `base` in the path, if the path begins with them.
    pub fn strip_prefix(&self, base: &FilePath) -> (rest: Option<FilePath>)
        ensures
            match (rest, stripped(self@, base@)) {
                (Some(rest), Some(expected)) => rest@ == expected,
                (None, None) => true,
                _ => false,
            },
    {
        let all = self.components();
        let prefix = base.components();
        assert(component_views(prefix@).take(prefix@.len() as int) =~= components(base@));
        if prefix.len() > all.len() || !same_components(&all, &prefix, prefix.len()) {
            return None;
        }
        assert(self@.take(self@.len() as int) =~= self@);
        let len = trimmed_len(&self.bytes, self.bytes.len());
        let ghost body = trimmed(self@);
        assert(body == self@.take(len as int));
        if prefix.len() == 0 {
            assert(self@.subrange(0, len as int) =~= body);
            return Some(FilePath { bytes: part(&self.bytes, 0, len) });
        }
        if prefix.len() == all.len() {
            return Some(FilePath { bytes: Vec::new() });
        }
        let start = self.find_component_start(prefix.len());
        proof {
            lemma_component_start(self@, prefix@.len());
        }
        assert(self@.subrange(start as int, len as int) =~= body.skip(start as int));
        Some(FilePath { bytes: part(&self.bytes, start, len) })
    }

    /// Tells whether two paths have the same components.
    pub fn same(&self, other: &FilePath) -> (same: bool)
        ensures
            same == same_path(self@, other@),
    {
        let a = self.components();
        let b = other.components();
        assert(component_views(a@).take(a@.len() as int) =~= components(self@));
        assert(component_views(b@).take(b@.len() as int) =~= components(other@));
        a.len() == b.len() && same_components(&a, &b, a.len())
    }

    /// How the path is displayed.
    pub fn display(&self) -> (text: String)
        ensures
            text@ == path_text(self@),
    {
        lossy(self.bytes.as_slice())
    }

    /// Tells whether the path has the given extension.
    pub fn has_extension(&self, wanted: &[u8]) -> (has: bool)
        ensures
            has == (extension(self@) == Some(wanted@)),
    {
        let all = self.components();
        let len = all.len();
        if len == 0 {
            return false;
        }
        let name = all[len - 1].as_slice();
        let end = name.len();
        assert(components(self@).last() == name@);
        match find_extension_dot(name) {
            Some(dot) => {
                let tail = vstd::slice::slice_subrange(name, dot + 1, end);
                assert(tail@ =~= name@.skip(dot + 1));
                text::same_bytes(tail, wanted)
            },
            None => false,
        }
    }

    /// The components of the path without the extension of its last component.
    pub fn strip_extension(&self) -> (stem: Vec<Vec<u8>>)
        ensures
            component_views(stem@) == without_extension(self@),
    {
        let all = self.components();
        let len = all.len();
        if len == 0 {
            return all;
        }
        let name = all[len - 1].as_slice();
        let end = name.len();
        assert(components(self@).last() == name@);
        match find_extension_dot(name) {
            Some(dot) => {
                let extension = end - dot - 1;
                proof {
                    lemma_last_component_fits(self@);
                }
                assert(self@.subrange(0, self@.len() - extension) =~= self@.take(
                    self@.len() - extension,
                ));
                FilePath { bytes: part(&self.bytes, 0, self.bytes.len() - extension) }.strip_last_dot()
            },
            None => all,
        }
    }

    /// The components of the path up to the last dot of its last component.
    fn strip_last_dot(&self) -> (stem: Vec<Vec<u8>>)
        ensures
            component_views(stem@) == up_to_last_dot(self@),
    {
        let mut all = self.components();
        let ghost views = component_views(all@);
        let last = match all.pop() {
            Some(last) => last,
            None => return all,
        };
        assert(views.last() == last@);
        assert(component_views(all@) =~= views.drop_last());
        match find_extension_dot(last.as_slice()) {
            Some(dot) => {
                let stem = part(&last, 0, dot);
                assert(stem@ =~= last@.take(dot as int));
                if !is_current_component(stem.as_slice()) || all.len() == 0 {
                    all.push(stem);
                    assert(component_views(all@) =~= views.drop_last().push(stem@));
                }
            },
            None => {
                all.push(last);
                assert(component_views(all@) =~= views);
            },
        }
        all
    }

    /// Tells whether the path comes strictly before `other`.
    pub fn less(&self, other: &FilePath) -> (less: bool)
        ensures
            less == path_lt(self@, other@),
    {
        let a = self.components();
        let b = other.components();
        let ghost x = components(self@);
        let ghost y = components(other@);
        let mut i: usize = 0;
        assert(x.skip(0) =~= x);
        assert(y.skip(0) =~= y);
        while i < a.len() && i < b.len()
            invariant
                i <= a@.len(),
                i <= b@.len(),
                x == components(self@),
                y == components(other@),
                x == component_views(a@),
                y == component_views(b@),
                components_lt(x, y) == components_lt(x.skip(i as int), y.skip(i as int)),
            decreases a.len() - i,
        {
            let one = a[i].as_slice();
            let two = b[i].as_slice();
            assert(x.skip(i as int)[0] == one@);
            assert(y.skip(i as int)[0] == two@);
            if !text::same_bytes(one, two) {
                let rank_a = rank(one);
                let rank_b = rank(two);
                return rank_a < rank_b || (rank_a == rank_b && text::bytes_less(one, two));
            }
            assert(x.skip(i as int).drop_first() =~= x.skip(i + 1));
            assert(y.skip(i as int).drop_first() =~= y.skip(i + 1));
            i += 1;
        }
        a.len() < b.len()
    }
}

proof fn lemma_last_component_fits(path: PathView)
    ensures
        components(path).len() > 0 ==> components(path).last().len() <= path.len(),
{
    lemma_trimmed(path);
    lemma_name_start(trimmed(path));
}

proof fn lemma_component_start(path: PathView, n: nat)
    ensures
        0 <= component_start(path, n) <= trimmed(path).len(),
    decreases path.len(),
{
    lemma_parent_is_shorter(path);
    lemma_trimmed(path);
    let body = trimmed(path);
    lemma_name_start(body);
    if let Some(directory) = parent(path) {
        lemma_component_start(directory, n);
        lemma_trimmed(directory);
        lemma_trimmed(body.take(name_start(body)));
    }
}

/// A path has the same components with and without what follows the last one.
proof fn lemma_trimmed_components(path: PathView)
    ensures
        components(trimmed(path)) == components(path),
{
    lemma_trimmed(path);
}

proof fn lemma_plain_name(path: PathView, name: Seq<u8>)
    requires
        name.len() > 0,
        forall|i: int| 0 <= i < name.len() ==> name[i] != SEPARATOR,
        path.len() > 0 ==> path.last() == SEPARATOR,
    ensures
        name_start(path + name) == path.len(),
    decreases name.len(),
{
    let whole = path + name;
    assert(whole.last() == name.last());
    let rest = name.drop_last();
    assert(whole.drop_last() =~= path + rest);
    if rest.len() > 0 {
        lemma_plain_name(path, rest);
    } else {
        assert(path + rest =~= path);
    }
}

/// A name behind a path adds one component to it.
pub proof fn joined_name_is_one_component(path: PathView, name: Seq<u8>)
    requires
        name.len() > 0,
        name != seq![0x2eu8],
        forall|i: int| 0 <= i < name.len() ==> name[i] != SEPARATOR,
    ensures
        components(joined(path, name)) == components(path).push(name),
{
    let whole = joined(path, name);
    let head = if path.len() > 0 && path.last() != SEPARATOR {
        path.push(SEPARATOR)
    } else {
        path
    };
    assert(whole =~= head + name);
    lemma_plain_name(head, name);
    assert(whole.last() == name.last());
    if whole.len() >= 2 && whole.last() == 0x2e && whole[whole.len() - 2] == SEPARATOR {
        if name.len() >= 2 {
            assert(whole[whole.len() - 2] == name[name.len() - 2]);
        }
        assert(name =~= seq![0x2eu8]);
    }
    assert(trimmed(whole) == whole);
    assert(whole.take(name_start(whole)) =~= head);
    assert(whole.skip(name_start(whole)) =~= name);
    assert(whole != root_component()) by {
        assert(root_component().last() == SEPARATOR);
    }
    assert(parent(whole) == Some(trimmed(head)));
    if head != path {
        assert(head.drop_last() =~= path);
        assert(trimmed(head) == trimmed(path));
    }
    lemma_trimmed_components(path);
}

proof fn lemma_last_dot(name: Seq<u8>, extension: Seq<u8>)
    requires
        forall|i: int| 0 <= i < extension.len() ==> extension[i] != 0x2e,
    ensures
        last_dot(name + seq![0x2eu8] + extension) == Some(name.len() as int),
    decreases extension.len(),
{
    let whole = name + seq![0x2eu8] + extension;
    if extension.len() > 0 {
        assert(whole.last() == extension.last());
        assert(whole.drop_last() =~= name + seq![0x2eu8] + extension.drop_last());
        lemma_last_dot(name, extension.drop_last());
    } else {
        assert(whole.last() == 0x2e);
    }
}

/// The extension of a file is what follows the last dot of its name, and without it the name is what
/// comes before the dot.
pub proof fn extension_is_split_off(directory: PathView, stem: Seq<u8>, extension: Seq<u8>)
    requires
        stem.len() > 0,
        stem != seq![0x2eu8],
        forall|i: int| 0 <= i < stem.len() ==> stem[i] != SEPARATOR,
        forall|i: int|
            0 <= i < extension.len() ==> extension[i] != SEPARATOR && extension[i] != 0x2e,
    ensures
        self::extension(joined(directory, stem + seq![0x2eu8] + extension)) == Some(extension),
        without_extension(joined(directory, stem + seq![0x2eu8] + extension)) == components(
            directory,
        ).push(stem),
{
    let dotted = stem + seq![0x2eu8];
    let name = dotted + extension;
    let whole = joined(directory, name);
    let none = Seq::<u8>::empty();
    lemma_last_dot(stem, extension);
    lemma_last_dot(stem, none);
    assert(dotted + none =~= dotted);
    assert(name[0] == stem[0]);
    assert(dotted != seq![0x2eu8, 0x2eu8]) by {
        if stem.len() == 1 {
            assert(dotted[0] == stem[0]);
            assert(stem[0] == 0x2e ==> stem =~= seq![0x2eu8]);
        }
    }
    assert(name != seq![0x2eu8, 0x2eu8]) by {
        if extension.len() == 0 {
            assert(name =~= dotted);
        }
    }
    joined_name_is_one_component(directory, name);
    joined_name_is_one_component(directory, dotted);
    assert(components(whole).last() == name);
    assert(name.skip(stem.len() as int + 1) =~= extension);
    assert(self::extension(whole) == Some(extension));
    let cut = whole.take(whole.len() - extension.len());
    assert(cut =~= joined(directory, dotted));
    assert(components(cut).last() == dotted);
    assert(dotted.take(stem.len() as int) =~= stem);
    assert(components(cut).drop_last() =~= components(directory));
}

proof fn lemma_component_order(a: Seq<u8>, b: Seq<u8>, c: Seq<u8>)
    ensures
        !component_lt(a, a),
        component_lt(a, b) && component_lt(b, c) ==> component_lt(a, c),
        a == b || component_lt(a, b) || component_lt(b, a),
{
    text::lemma_bytes_lt_irreflexive(a);
    if text::bytes_lt(a, b) && text::bytes_lt(b, c) {
        text::lemma_bytes_lt_transitive(a, b, c);
    }
    text::lemma_bytes_lt_total(a, b);
}

/// The order of components is a strict total order.
pub proof fn components_order_is_total(a: ComponentsView, b: ComponentsView, c: ComponentsView)
    ensures
        !components_lt(a, a),
        components_lt(a, b) && components_lt(b, c) ==> components_lt(a, c),
        a == b || components_lt(a, b) || components_lt(b, a),
    decreases a.len() + b.len() + c.len(),
{
    if a.len() > 0 {
        components_order_is_total(
            a.drop_first(),
            if b.len() > 0 {
                b.drop_first()
            } else {
                b
            },
            if c.len() > 0 {
                c.drop_first()
            } else {
                c
            },
        );
    }
    if a.len() > 0 && b.len() > 0 {
        lemma_component_order(
            a[0],
            b[0],
            if c.len() > 0 {
                c[0]
            } else {
                a[0]
            },
        );
        if a[0] == b[0] && a.drop_first() == b.drop_first() {
            assert(a =~= seq![a[0]] + a.drop_first());
            assert(b =~= seq![b[0]] + b.drop_first());
        }
        if c.len() > 0 {
            lemma_component_order(b[0], c[0], a[0]);
            lemma_component_order(a[0], c[0], b[0]);
            lemma_component_order(c[0], a[0], b[0]);
        }
    } else if a.len() == 0 && b.len() == 0 {
        assert(a =~= b);
    }
}

/// The order of paths is a strict total order on paths with different components.
pub proof fn path_order_is_total(a: PathView, b: PathView, c: PathView)
    ensures
        !path_lt(a, a),
        path_lt(a, b) && path_lt(b, c) ==> path_lt(a, c),
        same_path(a, b) || path_lt(a, b) || path_lt(b, a),
{
    components_order_is_total(components(a), components(b), components(c));
}

} // verus!
