//! A path as the sequence of components it names, which is what every rule
//! about layout reads: how deep a file sits, the directories above it, its
//! stem, and the order two paths sort in.

use vstd::prelude::*;

use crate::order::{chars_lt, text_lt};
use crate::text::{chars_of, copy_text, join, string_of_range, texts};

verus! {

/// One component of a path, in the order `std::path::Component` sorts them.
#[derive(Debug, Clone, PartialEq, Eq)]
pub enum Component {
    /// The leading `/` of an absolute path.
    Root,
    /// A leading `.`.
    Current,
    /// `..`.
    Parent,
    /// A file or directory name.
    Normal(String),
}

/// A component as plain values.
pub enum Part {
    Root,
    Current,
    Parent,
    Normal(Seq<char>),
}

impl View for Component {
    type V = Part;

    open spec fn view(&self) -> Part {
        match self {
            Component::Root => Part::Root,
            Component::Current => Part::Current,
            Component::Parent => Part::Parent,
            Component::Normal(s) => Part::Normal(s@),
        }
    }
}

/// A path, component by component.
#[derive(Debug, Clone, PartialEq, Eq, Default)]
pub struct FilePath {
    pub components: Vec<Component>,
}

/// The plain values of each component.
pub open spec fn parts_of(v: Seq<Component>) -> Seq<Part> {
    v.map_values(|c: Component| c@)
}

impl View for FilePath {
    type V = Seq<Part>;

    open spec fn view(&self) -> Seq<Part> {
        parts_of(self.components@)
    }
}

/// Where a kind of component sorts: root, then `.`, then `..`, then names.
pub open spec fn part_rank(p: Part) -> int {
    match p {
        Part::Root => 0,
        Part::Current => 1,
        Part::Parent => 2,
        Part::Normal(_) => 3,
    }
}

/// Component order: by kind, then names by their text.
pub open spec fn part_lt(a: Part, b: Part) -> bool {
    part_rank(a) < part_rank(b) || match (a, b) {
        (Part::Normal(x), Part::Normal(y)) => text_lt(x, y),
        _ => false,
    }
}

/// Path order: component by component, a prefix first.
pub open spec fn path_lt(a: Seq<Part>, b: Seq<Part>) -> bool
    decreases a.len(),
{
    if a.len() == 0 {
        b.len() > 0
    } else if b.len() == 0 {
        false
    } else if a[0] != b[0] {
        part_lt(a[0], b[0])
    } else {
        path_lt(a.drop_first(), b.drop_first())
    }
}

/// No component sorts before itself, and component order is carried along
/// a chain.
pub proof fn lemma_part_lt_strict(a: Part, b: Part, c: Part)
    ensures
        !part_lt(a, a),
        part_lt(a, b) && part_lt(b, c) ==> part_lt(a, c),
{
    if let Part::Normal(x) = a {
        crate::order::lemma_text_lt_irreflexive(x);
        if let (Part::Normal(y), Part::Normal(z)) = (b, c) {
            if text_lt(x, y) && text_lt(y, z) {
                crate::order::lemma_text_lt_transitive(x, y, z);
            }
        }
    }
}

/// No path sorts before itself.
pub proof fn lemma_path_lt_irreflexive(a: Seq<Part>)
    ensures
        !path_lt(a, a),
    decreases a.len(),
{
    if a.len() > 0 {
        lemma_path_lt_irreflexive(a.drop_first());
    }
}

/// Path order is carried along a chain.
pub proof fn lemma_path_lt_transitive(a: Seq<Part>, b: Seq<Part>, c: Seq<Part>)
    requires
        path_lt(a, b),
        path_lt(b, c),
    ensures
        path_lt(a, c),
    decreases a.len(),
{
    if a.len() > 0 && b.len() > 0 && c.len() > 0 {
        lemma_part_lt_strict(a[0], b[0], c[0]);
        if a[0] == b[0] && b[0] == c[0] {
            lemma_path_lt_transitive(a.drop_first(), b.drop_first(), c.drop_first());
        }
    }
}

/// Two different components sort one before the other.
pub proof fn lemma_part_lt_total(a: Part, b: Part)
    requires
        a != b,
    ensures
        part_lt(a, b) || part_lt(b, a),
{
    if let (Part::Normal(x), Part::Normal(y)) = (a, b) {
        crate::order::lemma_text_lt_total(x, y);
    }
}

/// Two different paths sort one before the other.
pub proof fn lemma_path_lt_total(a: Seq<Part>, b: Seq<Part>)
    requires
        a != b,
    ensures
        path_lt(a, b) || path_lt(b, a),
    decreases a.len(),
{
    if a.len() > 0 && b.len() > 0 {
        if a[0] == b[0] {
            if a.drop_first() == b.drop_first() {
                assert(a =~= seq![a[0]] + a.drop_first());
                assert(b =~= seq![b[0]] + b.drop_first());
            }
            lemma_path_lt_total(a.drop_first(), b.drop_first());
        } else {
            lemma_part_lt_total(a[0], b[0]);
        }
    } else if a.len() == 0 && b.len() == 0 {
        assert(a =~= b);
    }
}

/// The names among `parts`, in order.
pub open spec fn names_in(parts: Seq<Part>) -> Seq<Seq<char>>
    decreases parts.len(),
{
    if parts.len() == 0 {
        Seq::empty()
    } else {
        let before = names_in(parts.drop_last());
        match parts.last() {
            Part::Normal(n) => before.push(n),
            _ => before,
        }
    }
}

/// The last name of a path, if its last component is a name.
pub open spec fn file_name(p: Seq<Part>) -> Option<Seq<char>> {
    if p.len() == 0 {
        None
    } else {
        match p.last() {
            Part::Normal(n) => Some(n),
            _ => None,
        }
    }
}

/// The index of the last `.` in `s`, if any.
pub open spec fn last_dot(s: Seq<char>) -> Option<int>
    decreases s.len(),
{
    if s.len() == 0 {
        None
    } else if s.last() == '.' {
        Some(s.len() - 1)
    } else {
        last_dot(s.drop_last())
    }
}

/// The stem of a file name: the text before its last `.`, unless the only
/// `.` leads the name, as `Path::file_stem` cuts it.
pub open spec fn stem_of_name(n: Seq<char>) -> Seq<char> {
    match last_dot(n) {
        Some(i) => if i == 0 {
            n
        } else {
            n.take(i)
        },
        None => n,
    }
}

/// The stem of the file a path names, or the empty text when it names none.
pub open spec fn stem(p: Seq<Part>) -> Seq<char> {
    match file_name(p) {
        Some(n) => stem_of_name(n),
        None => Seq::empty(),
    }
}

/// How a component is spelled.
pub open spec fn part_text(p: Part) -> Seq<char> {
    match p {
        Part::Root => Seq::empty(),
        Part::Current => "."@,
        Part::Parent => ".."@,
        Part::Normal(n) => n,
    }
}

/// How a path is written: its components joined by `/`, behind a leading `/`
/// when it is absolute.
pub open spec fn display(p: Seq<Part>) -> Seq<char> {
    if p.len() > 0 && p[0] == Part::Root {
        "/"@ + join(p.drop_first().map_values(|q: Part| part_text(q)), "/"@)
    } else {
        join(p.map_values(|q: Part| part_text(q)), "/"@)
    }
}

impl Component {
    /// Whether `self` sorts strictly before `other`.
    pub fn before(&self, other: &Component) -> (r: bool)
        ensures
            r == part_lt(self@, other@),
    {
        match (self, other) {
            (Component::Normal(x), Component::Normal(y)) => {
                let a = chars_of(x.as_str());
                let b = chars_of(y.as_str());
                chars_lt(&a, &b)
            },
            _ => self.rank() < other.rank(),
        }
    }

    fn rank(&self) -> (r: u8)
        ensures
            r == part_rank(self@),
    {
        match self {
            Component::Root => 0,
            Component::Current => 1,
            Component::Parent => 2,
            Component::Normal(_) => 3,
        }
    }

    /// Whether two components are the same.
    pub fn same(&self, other: &Component) -> (r: bool)
        ensures
            r == (self@ == other@),
    {
        match (self, other) {
            (Component::Normal(x), Component::Normal(y)) => crate::text::same_text(
                x.as_str(),
                y.as_str(),
            ),
            (Component::Root, Component::Root) => true,
            (Component::Current, Component::Current) => true,
            (Component::Parent, Component::Parent) => true,
            _ => false,
        }
    }

    /// A copy of this component.
    pub fn copy(&self) -> (c: Component)
        ensures
            c@ == self@,
    {
        match self {
            Component::Root => Component::Root,
            Component::Current => Component::Current,
            Component::Parent => Component::Parent,
            Component::Normal(n) => Component::Normal(copy_text(n.as_str())),
        }
    }

    /// How this component is spelled.
    pub fn text(&self) -> (s: String)
        ensures
            s@ == part_text(self@),
    {
        match self {
            Component::Root => String::new(),
            Component::Current => copy_text("."),
            Component::Parent => copy_text(".."),
            Component::Normal(n) => copy_text(n.as_str()),
        }
    }
}

impl FilePath {
    /// A copy of this path.
    pub fn copy(&self) -> (p: FilePath)
        ensures
            p@ == self@,
    {
        let mut components: Vec<Component> = Vec::new();
        let mut i: usize = 0;
        while i < self.components.len()
            invariant
                i <= self.components@.len(),
                parts_of(components@) == parts_of(self.components@).take(i as int),
            decreases self.components@.len() - i,
        {
            let c = self.components[i].copy();
            let ghost before = components@;
            components.push(c);
            assert(components@ == before.push(c));
            assert(parts_of(components@) =~= parts_of(before).push(c@));
            i = i + 1;
            assert(parts_of(components@) =~= parts_of(self.components@).take(i as int));
        }
        assert(parts_of(self.components@).take(i as int) =~= parts_of(self.components@));
        FilePath { components }
    }

    /// Whether two paths have the same components.
    pub fn same(&self, other: &FilePath) -> (r: bool)
        ensures
            r == (self@ == other@),
    {
        if self.components.len() != other.components.len() {
            return false;
        }
        let mut i: usize = 0;
        while i < self.components.len()
            invariant
                i <= self@.len(),
                self@.len() == other@.len(),
                self.components@.len() == self@.len(),
                other.components@.len() == other@.len(),
                forall|j: int| 0 <= j < i ==> self@[j] == other@[j],
            decreases self.components@.len() - i,
        {
            assert(self@[i as int] == self.components@[i as int]@);
            assert(other@[i as int] == other.components@[i as int]@);
            if !self.components[i].same(&other.components[i]) {
                return false;
            }
            i = i + 1;
        }
        assert(self@ =~= other@);
        true
    }

    /// How many components the path has.
    pub fn depth(&self) -> (d: usize)
        ensures
            d == self@.len(),
    {
        self.components.len()
    }

    /// Whether `self` sorts strictly before `other`.
    pub fn before(&self, other: &FilePath) -> (r: bool)
        ensures
            r == path_lt(self@, other@),
    {
        let a = &self.components;
        let b = &other.components;
        let mut i: usize = 0;
        assert(self@.skip(0) =~= self@);
        assert(other@.skip(0) =~= other@);
        while i < a.len() && i < b.len()
            invariant
                i <= a@.len(),
                i <= b@.len(),
                a@ == self.components@,
                b@ == other.components@,
                path_lt(self@, other@) == path_lt(self@.skip(i as int), other@.skip(i as int)),
            decreases a@.len() - i,
        {
            assert(self@.skip(i as int)[0] == a@[i as int]@);
            assert(other@.skip(i as int)[0] == b@[i as int]@);
            if !a[i].same(&b[i]) {
                return a[i].before(&b[i]);
            }
            assert(self@.skip(i as int).drop_first() =~= self@.skip(i + 1));
            assert(other@.skip(i as int).drop_first() =~= other@.skip(i + 1));
            i = i + 1;
        }
        a.len() == i && b.len() > i
    }

    /// The file name, if the last component is one.
    pub fn file_name(&self) -> (n: Option<String>)
        ensures
            match n {
                Some(t) => file_name(self@) == Some(t@),
                None => file_name(self@) is None,
            },
    {
        let len = self.components.len();
        if len == 0 {
            return None;
        }
        match &self.components[len - 1] {
            Component::Normal(n) => Some(copy_text(n.as_str())),
            _ => None,
        }
    }

    /// The stem of the file this path names, or the empty text.
    pub fn stem(&self) -> (s: String)
        ensures
            s@ == stem(self@),
    {
        match self.file_name() {
            None => String::new(),
            Some(n) => {
                let chars = chars_of(n.as_str());
                let mut i = chars.len();
                assert(chars@.take(i as int) =~= chars@);
                while i > 0 && chars[i - 1] != '.'
                    invariant
                        i <= chars@.len(),
                        last_dot(chars@) == last_dot(chars@.take(i as int)),
                    decreases i,
                {
                    assert(chars@.take(i as int).drop_last() =~= chars@.take(i - 1));
                    i = i - 1;
                }
                proof {
                    if i > 0 {
                        assert(chars@.take(i as int).last() == '.');
                    } else {
                        assert(chars@.take(0) =~= Seq::<char>::empty());
                    }
                }
                if i <= 1 {
                    n
                } else {
                    let stem = string_of_range(chars.as_slice(), 0, i - 1);
                    assert(chars@.subrange(0, i - 1) =~= chars@.take(i - 1));
                    stem
                }
            },
        }
    }

    /// The names among the components above the last one; `None` when the
    /// path has no components at all and so no parent.
    pub fn parent_names(&self) -> (names: Option<Vec<String>>)
        ensures
            match names {
                Some(v) => self@.len() > 0 && texts(v@) == names_in(
                    self@.drop_last(),
                ),
                None => self@.len() == 0,
            },
    {
        let len = self.components.len();
        if len == 0 {
            return None;
        }
        let mut out: Vec<String> = Vec::new();
        let mut i: usize = 0;
        let ghost parent = self@.drop_last();
        while i < len - 1
            invariant
                len == self@.len(),
                i <= len - 1,
                parent == self@.drop_last(),
                texts(out@) == names_in(parent.take(i as int)),
            decreases len - 1 - i,
        {
            assert(parent.take(i + 1).drop_last() =~= parent.take(i as int));
            assert(parent.take(i + 1).last() == self.components@[i as int]@);
            match &self.components[i] {
                Component::Normal(n) => {
                    out.push(copy_text(n.as_str()));
                },
                _ => {},
            }
            i = i + 1;
            assert(texts(out@) =~= names_in(parent.take(i as int)));
        }
        assert(parent.take(i as int) =~= parent);
        Some(out)
    }

    /// How the path is written.
    pub fn display(&self) -> (s: String)
        ensures
            s@ == display(self@),
    {
        let mut s = String::new();
        let len = self.components.len();
        let mut start: usize = 0;
        let ghost texts = self@.map_values(|q: Part| part_text(q));
        if len > 0 {
            match &self.components[0] {
                Component::Root => {
                    s.push_str("/");
                    start = 1;
                },
                _ => {},
            }
        }
        assert(start == 1 ==> self@[0] == Part::Root);
        assert(start == 0 ==> !(self@.len() > 0 && self@[0] == Part::Root));
        let ghost tail = self@.skip(start as int).map_values(|q: Part| part_text(q));
        let ghost head = s@;
        let mut i: usize = start;
        while i < len
            invariant
                len == self@.len(),
                start <= i <= len,
                tail == self@.skip(start as int).map_values(|q: Part| part_text(q)),
                s@ == head + join(tail.take(i - start), "/"@),
            decreases len - i,
        {
            assert(tail.take(i + 1 - start).drop_last() =~= tail.take(i - start));
            assert(tail.take(i + 1 - start).last() == part_text(self.components@[i as int]@));
            if i > start {
                s.push_str("/");
            }
            let piece = self.components[i].text();
            s.push_str(piece.as_str());
            i = i + 1;
            proof {
                if i - start == 1 {
                    assert(tail.take(1)[0] == tail.take(1).last());
                }
                assert(s@ =~= head + join(tail.take(i - start), "/"@));
            }
        }
        assert(tail.take(i - start) =~= tail);
        proof {
            reveal_strlit("/");
            if start == 1 {
                assert(self@.skip(1) =~= self@.drop_first());
                assert(head =~= "/"@);
            } else {
                assert(self@.skip(0) =~= self@);
                assert(head =~= Seq::<char>::empty());
            }
            assert(s@ =~= display(self@));
        }
        s
    }
}

/// The component one segment between slashes makes, the `k`th segment of
/// a path that is absolute or not: none for an empty one, `.` only at the
/// start of a relative path, `..`, or a name.
pub open spec fn segment_parts(seg: Seq<char>, k: int, absolute: bool) -> Seq<Part> {
    if seg.len() == 0 {
        Seq::empty()
    } else if seg == seq!['.'] {
        if k == 0 && !absolute {
            seq![Part::Current]
        } else {
            Seq::empty()
        }
    } else if seg == seq!['.', '.'] {
        seq![Part::Parent]
    } else {
        seq![Part::Normal(seg)]
    }
}

/// The components of `s` from the segment that starts at `start` (the
/// `k`th), reading from `i`, after `acc`.
pub open spec fn parse_from(
    s: Seq<char>,
    start: int,
    i: int,
    k: int,
    absolute: bool,
    acc: Seq<Part>,
) -> Seq<Part>
    decreases s.len() - i,
{
    if i < 0 || i >= s.len() {
        acc + segment_parts(s.subrange(start, s.len() as int), k, absolute)
    } else if s[i] == '/' {
        parse_from(s, i + 1, i + 1, k + 1, absolute, acc + segment_parts(s.subrange(start, i), k, absolute))
    } else {
        parse_from(s, start, i + 1, k, absolute, acc)
    }
}

/// The components of a Unix path as `std::path::Path::components` yields
/// them: a root for a leading `/`, repeated separators and interior `.`
/// ignored, a trailing slash dropped.
pub open spec fn parse_path(s: Seq<char>) -> Seq<Part> {
    let absolute = s.len() > 0 && s[0] == '/';
    parse_from(
        s,
        0,
        0,
        0,
        absolute,
        if absolute {
            seq![Part::Root]
        } else {
            Seq::empty()
        },
    )
}

/// Whether `name` is one plain file name: not empty, no slash, not `.` or
/// `..`.
pub open spec fn plain_name(name: Seq<char>) -> bool {
    name.len() > 0 && (forall|i: int| 0 <= i < name.len() ==> name[i] != '/') && name != seq!['.']
        && name != seq!['.', '.']
}

/// Adds the component the segment `chars[start..end]` makes.
fn push_segment(
    components: &mut Vec<Component>,
    chars: &Vec<char>,
    start: usize,
    end: usize,
    k: usize,
    absolute: bool,
)
    requires
        start <= end <= chars@.len(),
    ensures
        parts_of(final(components)@) == parts_of(old(components)@) + segment_parts(
            chars@.subrange(start as int, end as int),
            k as int,
            absolute,
        ),
{
    let ghost seg = chars@.subrange(start as int, end as int);
    let ghost before = parts_of(components@);
    let len = end - start;
    if len == 0 {
    } else if len == 1 && chars[start] == '.' {
        assert(seg =~= seq!['.']);
        if k == 0 && !absolute {
            components.push(Component::Current);
        }
    } else if len == 2 && chars[start] == '.' && chars[start + 1] == '.' {
        assert(seg =~= seq!['.', '.']);
        components.push(Component::Parent);
    } else {
        proof {
            if len == 1 {
                assert(seg[0] == chars@[start as int]);
            }
            if len == 2 {
                assert(seg[0] == chars@[start as int] && seg[1] == chars@[start + 1]);
            }
        }
        let name = string_of_range(chars.as_slice(), start, end);
        components.push(Component::Normal(name));
    }
    assert(parts_of(components@) =~= before + segment_parts(seg, k as int, absolute));
}

impl FilePath {
    /// The path a text names, component by component.
    pub fn parse(text: &str) -> (p: FilePath)
        ensures
            p@ == parse_path(text@),
    {
        let chars = chars_of(text);
        let ghost s = text@;
        let absolute = chars.len() > 0 && chars[0] == '/';
        let mut components: Vec<Component> = Vec::new();
        if absolute {
            components.push(Component::Root);
        }
        assert(parts_of(components@) =~= if absolute {
            seq![Part::Root]
        } else {
            Seq::<Part>::empty()
        });
        let mut start: usize = 0;
        let mut k: usize = 0;
        let mut i: usize = 0;
        while i < chars.len()
            invariant
                start <= i <= chars@.len(),
                k <= i,
                chars@ == s,
                absolute == (s.len() > 0 && s[0] == '/'),
                parse_path(s) == parse_from(
                    s,
                    start as int,
                    i as int,
                    k as int,
                    absolute,
                    parts_of(components@),
                ),
            decreases chars@.len() - i,
        {
            if chars[i] == '/' {
                push_segment(&mut components, &chars, start, i, k, absolute);
                start = i + 1;
                k = k + 1;
            }
            i = i + 1;
        }
        push_segment(&mut components, &chars, start, i, k, absolute);
        FilePath { components }
    }

    /// This path with one more name after it, as `Path::join` adds a plain
    /// file name.
    pub fn with_name(&self, name: &str) -> (p: FilePath)
        requires
            plain_name(name@),
        ensures
            p@ == self@.push(Part::Normal(name@)),
    {
        let mut p = self.copy();
        let ghost before = p@;
        p.components.push(Component::Normal(copy_text(name)));
        assert(p@ =~= before.push(Part::Normal(name@)));
        p
    }
}

} // verus!
