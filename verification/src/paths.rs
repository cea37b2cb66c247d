//! `/`-separated paths as character sequences, with the component model of
//! `std::path::Path` on Unix: repeated separators and `.` segments are not
//! components, a leading `/` is the root component.

use vstd::prelude::*;
use crate::text::{eq, extend, join, join_seqs, last_char_index, lemma_seqs_of_push, rfind_char, seqs_of, slice, split_char, split_on, starts_with, strip_prefix};

verus! {

/// The non-empty, non-`.` pieces of a `/`-split path, in order.
pub open spec fn normal_pieces(pieces: Seq<Seq<char>>) -> Seq<Seq<char>>
    decreases pieces.len(),
{
    if pieces.len() == 0 {
        Seq::empty()
    } else {
        let rest = normal_pieces(pieces.drop_last());
        let p = pieces.last();
        if p.len() == 0 || p == seq!['.'] {
            rest
        } else {
            rest.push(p)
        }
    }
}

/// The components of a path: `/` for the root of an absolute path, then
/// the named segments.
pub open spec fn components(p: Seq<char>) -> Seq<Seq<char>> {
    let names = normal_pieces(split_char(p, '/'));
    if p.len() > 0 && p[0] == '/' {
        seq![seq!['/']] + names
    } else {
        names
    }
}

/// The final component when it is a name (`Path::file_name`).
pub open spec fn file_name(p: Seq<char>) -> Option<Seq<char>> {
    let c = components(p);
    if c.len() == 0 || c.last() == seq!['/'] || c.last() == seq!['.', '.'] {
        None
    } else {
        Some(c.last())
    }
}

/// The part of a file name before its extension (`Path::file_stem`): the
/// whole name when its only `.` is the first character or there is none.
pub open spec fn name_stem(name: Seq<char>) -> Seq<char> {
    let i = last_char_index(name, '.');
    if i <= 0 {
        name
    } else {
        name.take(i)
    }
}

/// The extension of a file name (`Path::extension`).
pub open spec fn name_extension(name: Seq<char>) -> Option<Seq<char>> {
    let i = last_char_index(name, '.');
    if i <= 0 {
        None
    } else {
        Some(name.skip(i + 1))
    }
}

/// `Path::join` on path strings: an absolute `rel` replaces `base`;
/// otherwise the two are joined with one separator.
pub open spec fn join_path(base: Seq<char>, rel: Seq<char>) -> Seq<char> {
    if rel.len() > 0 && rel[0] == '/' {
        rel
    } else if base.len() == 0 {
        rel
    } else if base.last() == '/' {
        base + rel
    } else {
        base + seq!['/'] + rel
    }
}

/// Renders components back into a path string.
pub open spec fn render(c: Seq<Seq<char>>) -> Seq<char> {
    if c.len() > 0 && c[0] == seq!['/'] {
        seq!['/'] + join_seqs(c.drop_first(), seq!['/'])
    } else {
        join_seqs(c, seq!['/'])
    }
}

/// `Path::parent`: all components but the last, rendered; `None` for a
/// path without components or for the root alone.
pub open spec fn parent(p: Seq<char>) -> Option<Seq<char>> {
    let c = components(p);
    if c.len() == 0 || (c.len() == 1 && c[0] == seq!['/']) {
        None
    } else {
        Some(render(c.drop_last()))
    }
}

/// `Path::starts_with`: the components of `base` are a prefix of those of
/// `p`.
pub open spec fn path_starts_with(p: Seq<char>, base: Seq<char>) -> bool {
    let a = components(p);
    let b = components(base);
    b.len() <= a.len() && a.take(b.len() as int) == b
}

/// `Path::strip_prefix`: the remaining components, joined with `/`.
pub open spec fn path_strip_prefix(p: Seq<char>, base: Seq<char>) -> Option<Seq<char>> {
    if path_starts_with(p, base) {
        Some(join_seqs(components(p).skip(components(base).len() as int), seq!['/']))
    } else {
        None
    }
}

/// The components of a path (see `components`).
pub fn path_components(p: &[char]) -> (r: Vec<Vec<char>>)
    ensures
        seqs_of(r@) == components(p@),
{
    let pieces = split_on(p, '/');
    let ghost pv = seqs_of(pieces@);
    let mut r: Vec<Vec<char>> = Vec::new();
    if p.len() > 0 && p[0] == '/' {
        let slash = vec!['/'];
        assert(slash@ =~= seq!['/']);
        proof {
            lemma_seqs_of_push(r@, slash);
        }
        r.push(slash);
    }
    let ghost root = seqs_of(r@);
    let mut i: usize = 0;
    assert(pv.take(0) =~= Seq::<Seq<char>>::empty());
    assert(root + normal_pieces(pv.take(0)) =~= root);
    while i < pieces.len()
        invariant
            i <= pieces.len(),
            pv == seqs_of(pieces@),
            pv == split_char(p@, '/'),
            seqs_of(r@) == root + normal_pieces(pv.take(i as int)),
        decreases pieces.len() - i,
    {
        proof {
            assert(pv[i as int] == pieces@[i as int]@);
            assert(pv.take(i + 1).drop_last() =~= pv.take(i as int));
            assert(pv.take(i + 1).last() == pv[i as int]);
        }
        let piece = &pieces[i];
        let is_dot = piece.len() == 1 && piece[0] == '.';
        proof {
            if piece@.len() == 1 {
                assert(is_dot == (piece@ =~= seq!['.']));
            } else {
                assert(piece@ != seq!['.']);
            }
        }
        if piece.len() > 0 && !is_dot {
            let c = slice(piece, 0, piece.len());
            assert(c@ =~= piece@);
            proof {
                lemma_seqs_of_push(r@, c);
            }
            r.push(c);
        }
        i = i + 1;
    }
    assert(pv.take(pieces.len() as int) =~= pv);
    proof {
        if p@.len() > 0 && p@[0] == '/' {
            assert(root =~= seq![seq!['/']]);
        } else {
            assert(root =~= Seq::<Seq<char>>::empty());
            assert(root + normal_pieces(pv) =~= normal_pieces(pv));
        }
    }
    r
}

/// The file name of a path (see `file_name`).
pub fn path_file_name(p: &[char]) -> (r: Option<Vec<char>>)
    ensures
        match r {
            Some(v) => file_name(p@) == Some(v@),
            None => file_name(p@) is None,
        },
{
    let c = path_components(p);
    proof {
        assert(seqs_of(c@).len() == c@.len());
    }
    if c.len() == 0 {
        return None;
    }
    let n = c.len();
    proof {
        assert(seqs_of(c@).last() == c@[n - 1]@);
    }
    let slash = vec!['/'];
    let dotdot = vec!['.', '.'];
    assert(slash@ =~= seq!['/']);
    assert(dotdot@ =~= seq!['.', '.']);
    if eq(&c[n - 1], &slash) || eq(&c[n - 1], &dotdot) {
        return None;
    }
    Some(slice(&c[n - 1], 0, c[n - 1].len()))
}

/// The stem of a file name (see `name_stem`).
pub fn file_stem_of(name: &[char]) -> (r: Vec<char>)
    ensures
        r@ == name_stem(name@),
{
    match rfind_char(name, '.') {
        Some(i) => {
            if i == 0 {
                slice(name, 0, name.len())
            } else {
                slice(name, 0, i)
            }
        },
        None => slice(name, 0, name.len()),
    }
}

/// The extension of a file name (see `name_extension`).
pub fn extension_of(name: &[char]) -> (r: Option<Vec<char>>)
    ensures
        match r {
            Some(v) => name_extension(name@) == Some(v@),
            None => name_extension(name@) is None,
        },
{
    match rfind_char(name, '.') {
        Some(i) => {
            if i == 0 {
                None
            } else {
                let e = slice(name, i + 1, name.len());
                assert(e@ =~= name@.skip(i + 1));
                Some(e)
            }
        },
        None => None,
    }
}

/// Joins two paths (see `join_path`).
pub fn path_join(base: &[char], rel: &[char]) -> (r: Vec<char>)
    ensures
        r@ == join_path(base@, rel@),
{
    if rel.len() > 0 && rel[0] == '/' {
        return slice(rel, 0, rel.len());
    }
    if base.len() == 0 {
        return slice(rel, 0, rel.len());
    }
    let mut r = slice(base, 0, base.len());
    if base[base.len() - 1] != '/' {
        r.push('/');
    }
    extend(&mut r, rel);
    r
}

fn render_exec(c: &Vec<Vec<char>>) -> (r: Vec<char>)
    ensures
        r@ == render(seqs_of(c@)),
{
    let sep = vec!['/'];
    assert(sep@ =~= seq!['/']);
    if c.len() > 0 && eq(&c[0], &sep) {
        proof {
            assert(seqs_of(c@)[0] == c@[0]@);
        }
        let mut rest: Vec<Vec<char>> = Vec::new();
        let mut i: usize = 1;
        while i < c.len()
            invariant
                1 <= i <= c.len(),
                seqs_of(rest@) == seqs_of(c@).subrange(1, i as int),
            decreases c.len() - i,
        {
            let piece = slice(&c[i], 0, c[i].len());
            proof {
                lemma_seqs_of_push(rest@, piece);
                assert(piece@ =~= seqs_of(c@)[i as int]);
            }
            rest.push(piece);
            i = i + 1;
            assert(seqs_of(rest@) =~= seqs_of(c@).subrange(1, i as int));
        }
        assert(seqs_of(c@).subrange(1, c.len() as int) =~= seqs_of(c@).drop_first());
        let mut r = vec!['/'];
        extend(&mut r, &join(&rest, &sep));
        r
    } else {
        proof {
            if c@.len() > 0 {
                assert(seqs_of(c@)[0] == c@[0]@);
            }
        }
        join(c, &sep)
    }
}

/// The parent of a path (see `parent`).
pub fn path_parent(p: &[char]) -> (r: Option<Vec<char>>)
    ensures
        match r {
            Some(v) => parent(p@) == Some(v@),
            None => parent(p@) is None,
        },
{
    let mut c = path_components(p);
    proof {
        assert(seqs_of(c@).len() == c@.len());
    }
    if c.len() == 0 {
        return None;
    }
    let slash = vec!['/'];
    assert(slash@ =~= seq!['/']);
    proof {
        assert(seqs_of(c@)[0] == c@[0]@);
    }
    if c.len() == 1 && eq(&c[0], &slash) {
        return None;
    }
    let ghost before = c@;
    c.pop();
    assert(seqs_of(c@) =~= seqs_of(before).drop_last());
    Some(render_exec(&c))
}

/// Whether the components of `base` are a prefix of those of `p`.
pub fn starts_with_path(p: &[char], base: &[char]) -> (r: bool)
    ensures
        r == path_starts_with(p@, base@),
{
    let a = path_components(p);
    let b = path_components(base);
    let ghost av = seqs_of(a@);
    let ghost bv = seqs_of(b@);
    if b.len() > a.len() {
        return false;
    }
    let mut i: usize = 0;
    while i < b.len()
        invariant
            i <= b.len() <= a.len(),
            av == seqs_of(a@),
            bv == seqs_of(b@),
            av == components(p@),
            bv == components(base@),
            forall|j: int| 0 <= j < i ==> av[j] == bv[j],
        decreases b.len() - i,
    {
        proof {
            assert(av[i as int] == a@[i as int]@);
            assert(bv[i as int] == b@[i as int]@);
        }
        if !eq(&a[i], &b[i]) {
            proof {
                assert(av.take(bv.len() as int)[i as int] == av[i as int]);
            }
            return false;
        }
        i = i + 1;
    }
    assert(av.take(bv.len() as int) =~= bv);
    true
}

/// `Path::strip_prefix` on path strings (see `path_strip_prefix`).
pub fn strip_path_prefix(p: &[char], base: &[char]) -> (r: Option<Vec<char>>)
    ensures
        match r {
            Some(v) => path_strip_prefix(p@, base@) == Some(v@),
            None => path_strip_prefix(p@, base@) is None,
        },
{
    if !starts_with_path(p, base) {
        return None;
    }
    let a = path_components(p);
    let b = path_components(base);
    let mut rest: Vec<Vec<char>> = Vec::new();
    let mut i: usize = b.len();
    proof {
        assert(seqs_of(b@).len() == b@.len());
        assert(seqs_of(a@).len() == a@.len());
    }
    while i < a.len()
        invariant
            b.len() <= i <= a.len(),
            seqs_of(rest@) == seqs_of(a@).subrange(b.len() as int, i as int),
        decreases a.len() - i,
    {
        let piece = slice(&a[i], 0, a[i].len());
        proof {
            lemma_seqs_of_push(rest@, piece);
            assert(piece@ =~= seqs_of(a@)[i as int]);
        }
        rest.push(piece);
        i = i + 1;
        assert(seqs_of(rest@) =~= seqs_of(a@).subrange(b.len() as int, i as int));
    }
    assert(seqs_of(a@).subrange(b.len() as int, a.len() as int) =~= seqs_of(a@).skip(
        b.len() as int,
    ));
    let sep = vec!['/'];
    assert(sep@ =~= seq!['/']);
    Some(join(&rest, &sep))
}

} // verus!
