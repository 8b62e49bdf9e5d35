//! Paths as lists of names. A path is the series of its components, from the
//! outermost directory to the file; there is no separator to escape and no
//! normal form to compute, so two paths are the same exactly when their
//! components are.
use crate::text::{chars_of, string_of};
use vstd::prelude::*;

verus! {

/// A path: its components, outermost first.
#[derive(Clone, Debug, PartialEq, Eq)]
pub struct AssetPath {
    pub components: Vec<String>,
}

impl View for AssetPath {
    type V = Seq<Seq<char>>;

    open spec fn view(&self) -> Seq<Seq<char>> {
        Seq::new(self.components@.len(), |i: int| self.components@[i]@)
    }
}

/// The position of the last dot of `name`, or -1 if it has none.
pub open spec fn last_dot(name: Seq<char>) -> int
    decreases name.len(),
{
    if name.len() == 0 {
        -1
    } else if name.last() == '.' {
        name.len() - 1
    } else {
        last_dot(name.drop_last())
    }
}

/// Whether `name` has an extension: a last dot with something before it. A
/// name that only starts with a dot has none.
pub open spec fn has_extension(name: Seq<char>) -> bool {
    last_dot(name) >= 1
}

/// What follows the last dot of `name`, if `name` has an extension.
pub open spec fn extension(name: Seq<char>) -> Option<Seq<char>> {
    if has_extension(name) {
        Some(name.skip(last_dot(name) + 1))
    } else {
        None
    }
}

/// `name` without its extension and the dot before it.
pub open spec fn stem(name: Seq<char>) -> Seq<char> {
    if has_extension(name) {
        name.take(last_dot(name))
    } else {
        name
    }
}

/// `name` with `ext` in the place of its extension; a name without an
/// extension gets one.
pub open spec fn replace_extension(name: Seq<char>, ext: Seq<char>) -> Seq<char> {
    stem(name) + seq!['.'] + ext
}

/// The text of a path: its components with a slash between them, except
/// after a component that already ends in one.
pub open spec fn text_of(path: Seq<Seq<char>>) -> Seq<char>
    decreases path.len(),
{
    if path.len() == 0 {
        Seq::empty()
    } else {
        let front = text_of(path.drop_last());
        if front.len() == 0 || front.last() == '/' {
            front + path.last()
        } else {
            front + seq!['/'] + path.last()
        }
    }
}

/// The directory that holds a path: the path without its last component.
/// The empty path stands for the directory that holds paths of one
/// component, and for its own.
pub open spec fn directory_of(path: Seq<Seq<char>>) -> Seq<Seq<char>> {
    if path.len() == 0 {
        path
    } else {
        path.drop_last()
    }
}

/// The last dot is a dot, and no dot follows it.
pub proof fn lemma_last_dot(name: Seq<char>)
    ensures
        -1 <= last_dot(name) < name.len(),
        last_dot(name) >= 0 ==> name[last_dot(name)] == '.',
        forall|j: int| last_dot(name) < j < name.len() ==> name[j] != '.',
    decreases name.len(),
{
    if name.len() > 0 && name.last() != '.' {
        lemma_last_dot(name.drop_last());
        assert forall|j: int| last_dot(name) < j < name.len() implies name[j] != '.' by {
            if j < name.len() - 1 {
                assert(name.drop_last()[j] == name[j]);
            }
        }
    }
}

/// A name is its stem, a dot and its extension.
pub proof fn lemma_stem_and_extension(name: Seq<char>)
    requires
        has_extension(name),
    ensures
        name == stem(name) + seq!['.'] + extension(name)->0,
        stem(name).len() >= 1,
{
    lemma_last_dot(name);
    assert(name =~= stem(name) + seq!['.'] + extension(name)->0);
}

/// Finds the last dot of `name`.
pub fn find_last_dot(name: &Vec<char>) -> (dot: Option<usize>)
    ensures
        match dot {
            Some(d) => last_dot(name@) == d && d < name.len(),
            None => last_dot(name@) == -1,
        },
{
    let mut i: usize = name.len();
    assert(name@.take(i as int) == name@);
    while i > 0
        invariant
            i <= name.len(),
            last_dot(name@) == last_dot(name@.take(i as int)),
        decreases i,
    {
        assert(name@.take(i as int).last() == name@[i - 1]);
        assert(name@.take(i as int).drop_last() == name@.take(i - 1));
        if name[i - 1] == '.' {
            return Some(i - 1);
        }
        i -= 1;
    }
    None
}

/// Computes [`extension`].
pub fn extension_of(name: &str) -> (ext: Option<String>)
    ensures
        ext is Some <==> has_extension(name@),
        ext matches Some(e) ==> extension(name@) == Some(e@),
{
    let chars = chars_of(name);
    match find_last_dot(&chars) {
        Some(dot) => {
            if dot >= 1 {
                let mut ext: Vec<char> = Vec::new();
                let mut i: usize = dot + 1;
                while i < chars.len()
                    invariant
                        dot + 1 <= i <= chars.len(),
                        ext@ == chars@.subrange(dot + 1, i as int),
                    decreases chars.len() - i,
                {
                    ext.push(chars[i]);
                    i += 1;
                }
                assert(chars@.subrange(dot + 1, chars.len() as int) == chars@.skip(dot + 1));
                Some(string_of(&ext))
            } else {
                None
            }
        },
        None => None,
    }
}

/// Computes [`replace_extension`].
pub fn with_extension(name: &str, ext: &str) -> (renamed: String)
    ensures
        renamed@ == replace_extension(name@, ext@),
{
    let chars = chars_of(name);
    let keep: usize = match find_last_dot(&chars) {
        Some(dot) => if dot >= 1 {
            dot
        } else {
            chars.len()
        },
        None => chars.len(),
    };
    assert(chars@.take(keep as int) == stem(name@)) by {
        assert(chars@.take(chars.len() as int) == chars@);
    }
    let mut renamed: Vec<char> = Vec::new();
    let mut i: usize = 0;
    while i < keep
        invariant
            i <= keep <= chars.len(),
            renamed@ == chars@.take(i as int),
        decreases keep - i,
    {
        renamed.push(chars[i]);
        i += 1;
    }
    renamed.push('.');
    let tail = chars_of(ext);
    let mut j: usize = 0;
    while j < tail.len()
        invariant
            j <= tail.len(),
            renamed@ == chars@.take(keep as int) + seq!['.'] + tail@.take(j as int),
        decreases tail.len() - j,
    {
        renamed.push(tail[j]);
        j += 1;
    }
    assert(tail@.take(tail.len() as int) == tail@);
    string_of(&renamed)
}

impl AssetPath {
    /// The path with the given components.
    pub fn new(components: Vec<String>) -> (path: AssetPath)
        ensures
            path.components == components,
    {
        AssetPath { components }
    }

    /// The number of components.
    pub fn len(&self) -> (n: usize)
        ensures
            n == self@.len(),
    {
        self.components.len()
    }

    /// The last component, if there is any.
    pub fn file_name(&self) -> (name: Option<String>)
        ensures
            name is Some <==> self@.len() > 0,
            name matches Some(n) ==> n@ == self@.last(),
    {
        let n = self.components.len();
        if n == 0 {
            None
        } else {
            Some(self.components[n - 1].clone())
        }
    }

    /// A copy of this path.
    pub fn duplicate(&self) -> (copy: AssetPath)
        ensures
            copy@ == self@,
    {
        self.slice(0, self.components.len())
    }

    /// The components from `from` up to, not including, `to`.
    pub fn slice(&self, from: usize, to: usize) -> (part: AssetPath)
        requires
            from <= to <= self@.len(),
        ensures
            part@ == self@.subrange(from as int, to as int),
    {
        let mut components: Vec<String> = Vec::new();
        let mut i: usize = from;
        while i < to
            invariant
                from <= i <= to <= self.components@.len(),
                components@.len() == i - from,
                forall|k: int| 0 <= k < i - from ==> components@[k]@ == self.components@[from + k]@,
            decreases to - i,
        {
            components.push(self.components[i].clone());
            i += 1;
        }
        let part = AssetPath { components };
        assert(part@ =~= self@.subrange(from as int, to as int));
        part
    }

    /// The directory that holds this path.
    pub fn directory(&self) -> (directory: AssetPath)
        ensures
            directory@ == directory_of(self@),
    {
        let n = self.components.len();
        if n == 0 {
            self.duplicate()
        } else {
            assert(self@.subrange(0, n - 1) == self@.drop_last());
            self.slice(0, n - 1)
        }
    }

    /// Whether this path lies at or under `base`: whether the components of
    /// `base` are the first components of this path.
    pub fn starts_with(&self, base: &AssetPath) -> (under: bool)
        ensures
            under == base@.is_prefix_of(self@),
    {
        if base.components.len() > self.components.len() {
            return false;
        }
        let mut i: usize = 0;
        while i < base.components.len()
            invariant
                i <= base.components@.len() <= self.components@.len(),
                forall|k: int| 0 <= k < i ==> base@[k] == self@[k],
            decreases base.components.len() - i,
        {
            if base.components[i] != self.components[i] {
                assert(base@[i as int] != self@[i as int]);
                assert(self@.subrange(0, base@.len() as int)[i as int] == self@[i as int]);
                return false;
            }
            i += 1;
        }
        assert(base@ =~= self@.subrange(0, base@.len() as int));
        true
    }

    /// This path as seen from `base`: what is left of it once the components
    /// of `base` are taken from its front. There is no such path unless this one
    /// lies at or under `base`.
    pub fn strip_prefix(&self, base: &AssetPath) -> (rest: Option<AssetPath>)
        ensures
            rest is Some <==> base@.is_prefix_of(self@),
            rest matches Some(r) ==> r@ == self@.skip(base@.len() as int),
    {
        if self.starts_with(base) {
            let r = self.slice(base.components.len(), self.components.len());
            assert(self@.subrange(base@.len() as int, self@.len() as int) == self@.skip(
                base@.len() as int,
            ));
            Some(r)
        } else {
            None
        }
    }

    /// The path that `rest` names when it is read from this path on.
    pub fn join(&self, rest: &AssetPath) -> (joined: AssetPath)
        ensures
            joined@ == self@ + rest@,
    {
        let mut components: Vec<String> = Vec::new();
        let mut i: usize = 0;
        while i < self.components.len()
            invariant
                i <= self.components@.len(),
                components@.len() == i,
                forall|k: int| 0 <= k < i ==> components@[k]@ == self.components@[k]@,
            decreases self.components.len() - i,
        {
            components.push(self.components[i].clone());
            i += 1;
        }
        let mut j: usize = 0;
        while j < rest.components.len()
            invariant
                j <= rest.components@.len(),
                components@.len() == self.components@.len() + j,
                forall|k: int|
                    0 <= k < self.components@.len() ==> components@[k]@ == self.components@[k]@,
                forall|k: int|
                    0 <= k < j ==> components@[self.components@.len() + k]@
                        == rest.components@[k]@,
            decreases rest.components.len() - j,
        {
            components.push(rest.components[j].clone());
            j += 1;
        }
        let joined = AssetPath { components };
        assert(joined@ =~= self@ + rest@);
        joined
    }

    /// The path written out, with slashes between its components.
    pub fn to_text(&self) -> (text: String)
        ensures
            text@ == text_of(self@),
    {
        let mut text: Vec<char> = Vec::new();
        let mut i: usize = 0;
        assert(self@.take(0) =~= Seq::<Seq<char>>::empty());
        while i < self.components.len()
            invariant
                i <= self.components@.len(),
                text@ == text_of(self@.take(i as int)),
            decreases self.components.len() - i,
        {
            let ghost front = text@;
            assert(self@.take(i + 1).drop_last() == self@.take(i as int));
            assert(self@.take(i + 1).last() == self.components@[i as int]@);
            let n = text.len();
            if n > 0 && text[n - 1] != '/' {
                text.push('/');
            }
            let ghost middle = text@;
            let part = chars_of(self.components[i].as_str());
            let mut j: usize = 0;
            while j < part.len()
                invariant
                    j <= part.len(),
                    text@ == middle + part@.take(j as int),
                decreases part.len() - j,
            {
                text.push(part[j]);
                j += 1;
            }
            assert(part@.take(part.len() as int) == part@);
            i += 1;
        }
        assert(self@.take(self@.len() as int) == self@);
        string_of(&text)
    }
}

} // verus!
