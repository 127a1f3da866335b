//! Splitting of storage paths into their components.
//!
//! A storage path is absolute and uses `/` as separator. Empty components,
//! as in `/a//b/`, are ignored.

use crate::error::{ErrorKind, IoError};
use crate::util::text::{str_chars, substring};
use vstd::prelude::*;

verus! {

/// The length of the longest prefix of `s` that holds no `/`.
pub open spec fn segment_len(s: Seq<char>) -> nat
    decreases s.len(),
{
    if s.len() > 0 && s[0] != '/' {
        1 + segment_len(s.drop_first())
    } else {
        0
    }
}

/// The non-empty runs of characters between the `/` of `s`, in order.
pub open spec fn split_components(s: Seq<char>) -> Seq<Seq<char>>
    decreases s.len(),
{
    if s.len() == 0 {
        seq![]
    } else if s[0] == '/' {
        split_components(s.drop_first())
    } else {
        proof {
            lemma_segment_len(s);
        }
        seq![s.take(segment_len(s) as int)] + split_components(s.skip(segment_len(s) as int))
    }
}

/// Whether a path starts with `/`.
pub open spec fn is_absolute(path: Seq<char>) -> bool {
    path.len() > 0 && path[0] == '/'
}

/// Whether `name` can be a single component of a path: it is not empty and
/// holds no `/`.
pub open spec fn is_component(name: Seq<char>) -> bool {
    name.len() > 0 && forall|i: int| 0 <= i < name.len() ==> name[i] != '/'
}

/// A segment lies within its text, holds no `/`, and ends at a `/` or at the
/// end of the text.
pub proof fn lemma_segment_len(s: Seq<char>)
    ensures
        segment_len(s) <= s.len(),
        forall|i: int| 0 <= i < segment_len(s) ==> #[trigger] s[i] != '/',
        segment_len(s) < s.len() ==> s[segment_len(s) as int] == '/',
        s.len() > 0 && s[0] != '/' ==> segment_len(s) > 0,
    decreases s.len(),
{
    if s.len() > 0 && s[0] != '/' {
        lemma_segment_len(s.drop_first());
        assert forall|i: int| 0 <= i < segment_len(s) implies #[trigger] s[i] != '/' by {
            if i > 0 {
                assert(s[i] == s.drop_first()[i - 1]);
            }
        }
        if segment_len(s) < s.len() {
            assert(s[segment_len(s) as int] == s.drop_first()[segment_len(s) - 1]);
        }
    }
}

/// Whether `name` can be a single component of a path.
pub fn is_component_name(name: &str) -> (r: bool)
    ensures
        r == is_component(name@),
{
    let chars = str_chars(name);
    if chars.len() == 0 {
        return false;
    }
    let mut i: usize = 0;
    while i < chars.len()
        invariant
            i <= chars.len(),
            chars@ == name@,
            forall|j: int| 0 <= j < i ==> chars@[j] != '/',
        decreases chars.len() - i,
    {
        if chars[i] == '/' {
            return false;
        }
        i += 1;
    }
    true
}

/// Every component of a path is a non-empty name without `/`.
pub proof fn lemma_components_are_names(s: Seq<char>)
    ensures
        forall|i: int|
            0 <= i < split_components(s).len() ==> is_component(#[trigger] split_components(s)[i]),
    decreases s.len(),
{
    if s.len() == 0 {
    } else if s[0] == '/' {
        lemma_components_are_names(s.drop_first());
        assert(split_components(s) == split_components(s.drop_first()));
    } else {
        lemma_segment_len(s);
        let n = segment_len(s) as int;
        assert(split_components(s) == seq![s.take(n)] + split_components(s.skip(n)));
        assert forall|j: int| 0 <= j < n implies s.take(n)[j] != '/' by {
            assert(s.take(n)[j] == s[j]);
        }
        lemma_components_are_names(s.skip(n));
        assert forall|i: int| 0 <= i < split_components(s).len() implies is_component(
            #[trigger] split_components(s)[i],
        ) by {
            if i == 0 {
                assert(split_components(s)[0] == s.take(n));
            } else {
                assert(split_components(s)[i] == split_components(s.skip(n))[i - 1]);
            }
        }
    }
}

/// A text that starts with the name `name` and goes on with `rest`, which is
/// empty or starts with `/`, has `name` as its first component and then the
/// components of `rest`.
pub proof fn lemma_split_cons(name: Seq<char>, rest: Seq<char>)
    requires
        is_component(name),
        rest.len() > 0 ==> rest[0] == '/',
    ensures
        split_components(name + rest) == seq![name] + split_components(rest),
{
    let s = name + rest;
    lemma_segment_len_exact(name, rest);
    assert(s.take(name.len() as int) =~= name);
    assert(s.skip(name.len() as int) =~= rest);
}

/// The first segment of `name + rest` is `name`, if `name` holds no `/` and
/// `rest` is empty or starts with one.
pub proof fn lemma_segment_len_exact(name: Seq<char>, rest: Seq<char>)
    requires
        forall|i: int| 0 <= i < name.len() ==> name[i] != '/',
        rest.len() > 0 ==> rest[0] == '/',
    ensures
        segment_len(name + rest) == name.len(),
    decreases name.len(),
{
    let s = name + rest;
    if name.len() == 0 {
        assert(s =~= rest);
    } else {
        assert(s[0] == name[0]);
        assert(s.drop_first() =~= name.drop_first() + rest);
        lemma_segment_len_exact(name.drop_first(), rest);
    }
}

/// A `/` in front of a text changes nothing about its components.
pub proof fn lemma_split_slash(rest: Seq<char>)
    ensures
        split_components(seq!['/'] + rest) == split_components(rest),
{
    let s = seq!['/'] + rest;
    assert(s.drop_first() =~= rest);
}

/// A segment that ends within a text stays as it is when a `/` and more
/// text follow.
pub proof fn lemma_segment_len_append(base: Seq<char>, tail: Seq<char>)
    requires
        tail.len() > 0,
        tail[0] == '/',
    ensures
        segment_len(base + tail) == segment_len(base),
    decreases base.len(),
{
    let s = base + tail;
    if base.len() == 0 {
        assert(s =~= tail);
    } else {
        assert(s[0] == base[0]);
        if base[0] != '/' {
            assert(s.drop_first() =~= base.drop_first() + tail);
            lemma_segment_len_append(base.drop_first(), tail);
        }
    }
}

/// A name that is added to a path, after a `/`, is one more component.
pub proof fn lemma_split_append(base: Seq<char>, name: Seq<char>)
    requires
        is_component(name),
    ensures
        split_components(base + seq!['/'] + name) == split_components(base).push(name),
    decreases base.len(),
{
    let tail = seq!['/'] + name;
    let s = base + tail;
    assert(s =~= base + seq!['/'] + name);
    if base.len() == 0 {
        assert(s =~= seq!['/'] + name);
        lemma_split_slash(name);
        lemma_split_cons(name, seq![]);
        assert(name + Seq::<char>::empty() =~= name);
        assert(split_components(s) =~= seq![name]);
        assert(split_components(base) =~= seq![]);
    } else if base[0] == '/' {
        assert(s[0] == '/');
        assert(s.drop_first() =~= base.drop_first() + seq!['/'] + name);
        lemma_split_append(base.drop_first(), name);
    } else {
        lemma_segment_len(base);
        lemma_segment_len_append(base, tail);
        let n = segment_len(base) as int;
        assert(s[0] == base[0]);
        assert(s.take(n) =~= base.take(n));
        assert(s.skip(n) =~= base.skip(n) + seq!['/'] + name);
        lemma_split_append(base.skip(n), name);
        assert(split_components(s) =~= seq![base.take(n)] + split_components(base.skip(n)).push(
            name,
        ));
    }
}

/// A component of a path.
#[derive(Debug, Clone, PartialEq, Eq)]
pub struct PathComponent {
    /// The name of the component.
    pub name: String,
    /// Whether no further component follows.
    pub is_last: bool,
}

/// The components of a path, handed out one after the other.
#[derive(Debug, Clone)]
pub struct PathIter {
    names: Vec<String>,
    position: usize,
}

impl PathIter {
    /// The names of the components that have not been handed out yet.
    pub closed spec fn remaining(&self) -> Seq<Seq<char>> {
        if self.position <= self.names.len() {
            self.names.deep_view().skip(self.position as int)
        } else {
            seq![]
        }
    }

    /// Hands out the next component, or `None` after the last one.
    pub fn next(&mut self) -> (item: Option<PathComponent>)
        ensures
            old(self).remaining().len() == 0 ==> item is None && final(self).remaining()
                == old(self).remaining(),
            old(self).remaining().len() > 0 ==> (item matches Some(c)
                && c.name@ == old(self).remaining()[0]
                && c.is_last == (old(self).remaining().len() == 1)
                && final(self).remaining() == old(self).remaining().drop_first()),
    {
        if self.position < self.names.len() {
            let name = self.names[self.position].clone();
            let is_last = self.position + 1 == self.names.len();
            let ghost before = self.remaining();
            self.position = self.position + 1;
            assert(self.remaining() =~= before.drop_first());
            Some(PathComponent { name, is_last })
        } else {
            None
        }
    }

    /// Hands out all components that are left.
    pub fn collect(self) -> (items: Vec<PathComponent>)
        ensures
            items.len() == self.remaining().len(),
            forall|i: int|
                0 <= i < items.len() ==> (#[trigger] items[i]).name@ == self.remaining()[i]
                    && items[i].is_last == (i + 1 == items.len()),
    {
        let ghost all = self.remaining();
        let mut iter = self;
        let mut items: Vec<PathComponent> = Vec::new();
        loop
            invariant
                items.len() + iter.remaining().len() == all.len(),
                iter.remaining() == all.skip(items.len() as int),
                forall|i: int|
                    0 <= i < items.len() ==> (#[trigger] items[i]).name@ == all[i]
                        && items[i].is_last == (i + 1 == all.len()),
            ensures
                iter.remaining().len() == 0,
            decreases iter.remaining().len(),
        {
            match iter.next() {
                Some(component) => {
                    items.push(component);
                    assert(all.skip(items.len() as int - 1).drop_first() =~= all.skip(
                        items.len() as int,
                    ));
                },
                None => {
                    break ;
                },
            }
        }
        items
    }
}

/// Access to the components of a storage path.
pub trait PathIterExt {
    /// The path as a sequence of characters.
    spec fn path_text(&self) -> Seq<char>;

    /// Splits an absolute path into its components. A path that does not
    /// start with `/` is refused as invalid input.
    fn path_components(&self) -> (r: Result<PathIter, IoError>)
        ensures
            is_absolute(self.path_text()) ==> (r matches Ok(iter) && iter.remaining()
                == split_components(self.path_text())),
            !is_absolute(self.path_text()) ==> (r matches Err(e) && e.kind
                == ErrorKind::InvalidInput),
    ;
}

impl PathIterExt for str {
    open spec fn path_text(&self) -> Seq<char> {
        self@
    }

    fn path_components(&self) -> (r: Result<PathIter, IoError>) {
        match component_names(self) {
            Ok(names) => {
                let iter = PathIter { names, position: 0 };
                assert(iter.remaining() =~= names.deep_view());
                Ok(iter)
            },
            Err(e) => Err(e),
        }
    }
}

/// The names of the components of an absolute path; a path that does not
/// start with `/` is refused as invalid input.
pub fn component_names(path: &str) -> (r: Result<Vec<String>, IoError>)
    ensures
        is_absolute(path@) ==> (r matches Ok(names) && names.deep_view() == split_components(
            path@,
        )),
        !is_absolute(path@) ==> (r matches Err(e) && e.kind == ErrorKind::InvalidInput),
{
    let chars = str_chars(path);
    if chars.len() == 0 || chars[0] != '/' {
        return Err(
            IoError::new(
                ErrorKind::InvalidInput,
                "Path must be absolute, i.e. start with a slash '/'",
            ),
        );
    }
    let mut names: Vec<String> = Vec::new();
    let mut pos: usize = 0;
    assert(chars@.skip(0) =~= chars@);
    while pos < chars.len()
        invariant
            pos <= chars.len(),
            chars@ == path@,
            split_components(path@) == names.deep_view() + split_components(
                chars@.skip(pos as int),
            ),
        decreases chars.len() - pos,
    {
        let ghost rest = chars@.skip(pos as int);
        if chars[pos] == '/' {
            assert(rest.drop_first() =~= chars@.skip(pos as int + 1));
            pos += 1;
        } else {
            let mut end: usize = pos;
            while end < chars.len() && chars[end] != '/'
                invariant
                    pos <= end <= chars.len(),
                    segment_len(chars@.skip(pos as int)) == (end - pos) + segment_len(
                        chars@.skip(end as int),
                    ),
                decreases chars.len() - end,
            {
                assert(chars@.skip(end as int).drop_first() =~= chars@.skip(end as int + 1));
                end += 1;
            }
            let name = substring(&chars, pos, end);
            assert(rest.take(end - pos) =~= chars@.subrange(pos as int, end as int));
            assert(rest.skip(end - pos) =~= chars@.skip(end as int));
            let ghost before = names.deep_view();
            names.push(name);
            assert(names.deep_view() =~= before + seq![rest.take(end - pos)]);
            pos = end;
        }
    }
    assert(names.deep_view() =~= split_components(path@));
    Ok(names)
}

} // verus!
