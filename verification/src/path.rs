//! Paths as text: their components, their joins, and the extension of a file
//! name. The separator is `/` on every platform.

use vstd::prelude::*;
use crate::text::{chars_of, text_of};

verus! {

/// The pieces of `s` between occurrences of `sep`; never empty, and a piece
/// may be empty.
pub open spec fn split(s: Seq<char>, sep: char) -> Seq<Seq<char>>
    decreases s.len(),
{
    if s.len() == 0 {
        seq![Seq::<char>::empty()]
    } else {
        let before = split(s.drop_last(), sep);
        if s.last() == sep {
            before.push(Seq::<char>::empty())
        } else {
            before.drop_last().push(before.last().push(s.last()))
        }
    }
}

/// The pieces of `pieces` that hold at least one character, in order.
pub open spec fn non_empty(pieces: Seq<Seq<char>>) -> Seq<Seq<char>>
    decreases pieces.len(),
{
    if pieces.len() == 0 {
        pieces
    } else if pieces.last().len() > 0 {
        non_empty(pieces.drop_last()).push(pieces.last())
    } else {
        non_empty(pieces.drop_last())
    }
}

/// The components of a path: its non-empty pieces between slashes.
pub open spec fn components(path: Seq<char>) -> Seq<Seq<char>> {
    non_empty(split(path, '/'))
}

/// A split gives at least one piece.
pub proof fn lemma_split_len(s: Seq<char>, sep: char)
    ensures
        split(s, sep).len() >= 1,
    decreases s.len(),
{
    if s.len() > 0 {
        lemma_split_len(s.drop_last(), sep);
    }
}

/// `a`, then a slash, then `b`.
pub open spec fn joined(a: Seq<char>, b: Seq<char>) -> Seq<char> {
    a.push('/') + b
}

/// The views of the texts in `v`.
pub open spec fn views(v: Seq<String>) -> Seq<Seq<char>> {
    Seq::new(v.len(), |i: int| v[i]@)
}

/// The components of the path that `chars` holds from position `start` on.
pub fn components_from(chars: &Vec<char>, start: usize) -> (out: Vec<String>)
    requires
        start <= chars.len(),
    ensures
        views(out@) == components(chars@.skip(start as int)),
{
    let ghost whole = chars@.skip(start as int);
    let mut out: Vec<String> = Vec::new();
    let mut piece: Vec<char> = Vec::new();
    let mut i: usize = start;
    proof {
        assert(whole.take(0) =~= Seq::<char>::empty());
        assert(split(whole.take(0), '/').drop_last() =~= Seq::<Seq<char>>::empty());
        assert(views(out@) =~= non_empty(split(whole.take(0), '/').drop_last()));
    }
    while i < chars.len()
        invariant
            start <= i <= chars.len(),
            whole == chars@.skip(start as int),
            split(whole.take(i - start), '/').len() >= 1,
            views(out@) == non_empty(split(whole.take(i - start), '/').drop_last()),
            piece@ == split(whole.take(i - start), '/').last(),
        decreases chars.len() - i,
    {
        let c = chars[i];
        proof {
            let before = whole.take(i - start);
            let now = whole.take(i - start + 1);
            assert(now.drop_last() =~= before);
            assert(now.last() == c);
            lemma_split_len(now, '/');
            let pieces = split(before, '/');
            if c == '/' {
                assert(split(now, '/').drop_last() =~= pieces);
                assert(pieces.drop_last().push(pieces.last()) =~= pieces);
            } else {
                assert(split(now, '/').drop_last() =~= pieces.drop_last());
            }
        }
        if c == '/' {
            if piece.len() > 0 {
                let done = text_of(&piece);
                let ghost old_out = out@;
                out.push(done);
                proof {
                    assert(views(out@) =~= views(old_out).push(piece@));
                }
            }
            piece = Vec::new();
        } else {
            piece.push(c);
        }
        i += 1;
    }
    proof {
        assert(whole.take(i - start) =~= whole);
        let pieces = split(whole, '/');
        assert(pieces.drop_last().push(pieces.last()) =~= pieces);
    }
    if piece.len() > 0 {
        let done = text_of(&piece);
        let ghost old_out = out@;
        out.push(done);
        proof {
            assert(views(out@) =~= views(old_out).push(piece@));
        }
    }
    out
}

/// Splits a path into its components.
pub fn split_components(path: &str) -> (out: Vec<String>)
    ensures
        views(out@) == components(path@),
{
    let chars = chars_of(path);
    proof {
        assert(chars@.skip(0) =~= chars@);
    }
    components_from(&chars, 0)
}

/// The components of `names` with a slash between each two.
pub open spec fn slashed(names: Seq<Seq<char>>) -> Seq<char>
    decreases names.len(),
{
    if names.len() == 0 {
        Seq::empty()
    } else if names.len() == 1 {
        names[0]
    } else {
        joined(slashed(names.drop_last()), names.last())
    }
}

/// Whether `root` is the start of `names`.
pub open spec fn starts_with(names: Seq<Seq<char>>, root: Seq<Seq<char>>) -> bool {
    root.len() <= names.len() && names.take(root.len() as int) == root
}

/// The path of `path` as seen from the directory `root`: what is left of
/// its components after those of `root`, with slashes between. None where
/// `path` does not lie under `root`, or is `root` itself.
pub open spec fn relative(path: Seq<char>, root: Seq<char>) -> Option<Seq<char>> {
    let names = components(path);
    let base = components(root);
    if starts_with(names, base) && base.len() < names.len() {
        Some(slashed(names.skip(base.len() as int)))
    } else {
        None
    }
}

/// The last component of a path, if it has one.
pub open spec fn leaf(path: Seq<char>) -> Option<Seq<char>> {
    let names = components(path);
    if names.len() == 0 {
        None
    } else {
        Some(names.last())
    }
}

/// The position of the last dot of `name`, or -1 where it has none.
pub open spec fn last_dot(name: Seq<char>) -> int
    decreases name.len(),
{
    if name.len() == 0 {
        -1
    } else if name.last() == '.' {
        name.len() - 1
    } else {
        last_dot(name.drop_last())
    }
}

/// The extension of a file name: what follows its last dot. None where
/// the name has no dot, or only the one it begins with.
pub open spec fn extension(name: Seq<char>) -> Option<Seq<char>> {
    let dot = last_dot(name);
    if dot <= 0 {
        None
    } else {
        Some(name.skip(dot + 1))
    }
}

/// Joins `names` with slashes.
pub fn join_components(names: &Vec<String>, from: usize) -> (out: String)
    requires
        from <= names.len(),
    ensures
        out@ == slashed(views(names@).skip(from as int)),
{
    let ghost rest = views(names@).skip(from as int);
    let mut out = String::new();
    let mut i: usize = from;
    proof {
        assert(rest.take(0) =~= Seq::<Seq<char>>::empty());
    }
    while i < names.len()
        invariant
            from <= i <= names.len(),
            rest == views(names@).skip(from as int),
            out@ == slashed(rest.take(i - from)),
        decreases names.len() - i,
    {
        proof {
            let now = rest.take(i - from + 1);
            assert(now.drop_last() =~= rest.take(i - from));
            assert(now.last() == names[i as int]@);
        }
        if i > from {
            let ghost before = out@;
            out.push('/');
            out.append(names[i].as_str());
            proof {
                assert(out@ =~= joined(before, names[i as int]@));
            }
        } else {
            out.append(names[i].as_str());
            proof {
                assert(out@ =~= names[i as int]@);
            }
        }
        i += 1;
    }
    proof {
        assert(rest.take(names.len() - from) =~= rest);
    }
    out
}

/// The path of `path` as seen from the directory `root`.
pub fn relative_to(path: &str, root: &str) -> (out: Option<String>)
    ensures
        match out {
            Some(rest) => relative(path@, root@) == Some(rest@),
            None => relative(path@, root@) is None,
        },
{
    let names = split_components(path);
    let base = split_components(root);
    if base.len() >= names.len() {
        proof {
            if starts_with(views(names@), views(base@)) {
                assert(views(base@).len() <= views(names@).len());
            }
        }
        return None;
    }
    let mut i: usize = 0;
    while i < base.len()
        invariant
            i <= base.len() < names.len(),
            views(names@) == components(path@),
            views(base@) == components(root@),
            forall|k: int| 0 <= k < i ==> names[k]@ == base[k]@,
        decreases base.len() - i,
    {
        if !crate::text::same_text(names[i].as_str(), base[i].as_str()) {
            proof {
                let front = views(names@).take(base.len() as int);
                assert(front[i as int] == names[i as int]@);
                assert(views(base@)[i as int] == base[i as int]@);
            }
            return None;
        }
        i += 1;
    }
    proof {
        assert(views(names@).take(base.len() as int) =~= views(base@));
    }
    Some(join_components(&names, base.len()))
}

/// The last component of a path.
pub fn leaf_of(path: &str) -> (out: Option<String>)
    ensures
        match out {
            Some(name) => leaf(path@) == Some(name@),
            None => leaf(path@) is None,
        },
{
    let names = split_components(path);
    if names.len() == 0 {
        None
    } else {
        Some(names[names.len() - 1].clone())
    }
}

/// The extension of a file name.
pub fn extension_of(name: &str) -> (out: Option<String>)
    ensures
        match out {
            Some(ext) => extension(name@) == Some(ext@),
            None => extension(name@) is None,
        },
{
    let chars = chars_of(name);
    let mut dot: Option<usize> = None;
    let mut n: usize = 0;
    proof {
        assert(chars@.take(0) =~= Seq::<char>::empty());
    }
    while n < chars.len()
        invariant
            n <= chars.len(),
            match dot {
                Some(d) => d < n && last_dot(chars@.take(n as int)) == d,
                None => last_dot(chars@.take(n as int)) == -1,
            },
        decreases chars.len() - n,
    {
        proof {
            let now = chars@.take(n + 1);
            assert(now.drop_last() =~= chars@.take(n as int));
            assert(now.last() == chars@[n as int]);
        }
        if chars[n] == '.' {
            dot = Some(n);
        }
        n += 1;
    }
    proof {
        assert(chars@.take(chars.len() as int) =~= chars@);
    }
    let i: usize = match dot {
        Some(d) => {
            if d == 0 {
                return None;
            }
            d + 1
        },
        None => {
            return None;
        },
    };
    let mut ext: Vec<char> = Vec::new();
    let mut k: usize = i;
    while k < chars.len()
        invariant
            i <= k <= chars.len(),
            ext@ == chars@.subrange(i as int, k as int),
        decreases chars.len() - k,
    {
        ext.push(chars[k]);
        k += 1;
    }
    proof {
        assert(chars@.subrange(i as int, chars.len() as int) =~= chars@.skip(i as int));
    }
    Some(text_of(&ext))
}

} // verus!
