//! What std's path handling does on every platform, for the paths whose
//! meaning does not depend on the platform.

use vstd::prelude::*;

use crate::text::join_with;

verus! {

/// Whether a path splits into components at `/` alone on every platform:
/// it holds no `\` (a separator on Windows only), no `:` (which starts a
/// drive prefix on Windows) and does not start with `//` (which may start a
/// UNC prefix on Windows).
pub open spec fn slash_path(s: Seq<char>) -> bool {
    &&& !s.contains('\\')
    &&& !s.contains(':')
    &&& !(s.len() >= 2 && s[0] == '/' && s[1] == '/')
}

/// The pieces of `s` between its `/`, with `cur` in front of the first.
pub open spec fn slash_pieces_from(s: Seq<char>, cur: Seq<char>) -> Seq<Seq<char>>
    decreases s.len(),
{
    if s.len() == 0 {
        seq![cur]
    } else if s[0] == '/' {
        seq![cur] + slash_pieces_from(s.skip(1), seq![])
    } else {
        slash_pieces_from(s.skip(1), cur.push(s[0]))
    }
}

/// The pieces of `s` between its `/`.
pub open spec fn slash_pieces(s: Seq<char>) -> Seq<Seq<char>> {
    slash_pieces_from(s, seq![])
}

/// The pieces that are components of a name: all but the empty ones and `.`,
/// which path parsing normalises away (a leading `.` stays as the current
/// directory, which is no name either).
pub open spec fn named_pieces(pieces: Seq<Seq<char>>) -> Seq<Seq<char>>
    decreases pieces.len(),
{
    if pieces.len() == 0 {
        seq![]
    } else {
        let rest = named_pieces(pieces.drop_last());
        let p = pieces.last();
        if p.len() > 0 && p != seq!['.'] {
            rest.push(p)
        } else {
            rest
        }
    }
}

/// `Path::file_name` of a [`slash_path`]: its last component, unless there
/// is none or it is `..`.
pub open spec fn file_name_of(s: Seq<char>) -> Option<Seq<char>> {
    let names = named_pieces(slash_pieces(s));
    if names.len() == 0 || names.last() == seq!['.', '.'] {
        None
    } else {
        Some(names.last())
    }
}

/// The index of the last `c` in `s`, or -1.
pub open spec fn last_index_of(s: Seq<char>, c: char) -> int
    decreases s.len(),
{
    if s.len() == 0 {
        -1
    } else if s.last() == c {
        s.len() - 1
    } else {
        last_index_of(s.drop_last(), c)
    }
}

/// The stem of a file name: the whole name if it holds no `.` or only a
/// leading one, else the part before its last `.`.
pub open spec fn stem_of(name: Seq<char>) -> Seq<char> {
    let i = last_index_of(name, '.');
    if i <= 0 {
        name
    } else {
        name.take(i)
    }
}

/// Whether joining `file` onto `root` adds one separator between them on
/// every platform: `root` is a non-empty [`slash_path`] that does not end
/// in `/`; `file` is non-empty, starts with neither `/` nor `\`, and
/// holds no `:`, so it is relative and has no prefix.
pub open spec fn plain_join(root: Seq<char>, file: Seq<char>) -> bool {
    &&& root.len() > 0
    &&& slash_path(root)
    &&& root.last() != '/'
    &&& file.len() > 0
    &&& file[0] != '/'
    &&& file[0] != '\\'
    &&& !file.contains(':')
}

/// Whether joining `file` onto `root` gives `file` on every platform:
/// `file` is a [`slash_path`] that starts with `/`, so it has a root and no
/// prefix, and `root`, a [`slash_path`], has no prefix to keep either.
pub open spec fn absolute_join(root: Seq<char>, file: Seq<char>) -> bool {
    &&& slash_path(root)
    &&& slash_path(file)
    &&& file.len() > 0
    &&& file[0] == '/'
}

/// Whether `s` is an absolute [`slash_path`] in plain form: `/`, then
/// non-empty pieces other than `.` separated by single `/`, with no `/` at
/// the end. Its components are the root and its pieces, in order.
pub open spec fn clean_absolute(s: Seq<char>) -> bool {
    &&& slash_path(s)
    &&& s.len() >= 2
    &&& s[0] == '/'
    &&& forall|i: int|
        1 <= i < slash_pieces(s).len() ==> (#[trigger] slash_pieces(s)[i]).len() > 0 && slash_pieces(
            s,
        )[i] != seq!['.']
}

/// Whether the pieces of `base` come first among those of `path`.
pub open spec fn pieces_prefix(base: Seq<char>, path: Seq<char>) -> bool {
    &&& slash_pieces(base).len() <= slash_pieces(path).len()
    &&& slash_pieces(path).take(slash_pieces(base).len() as int) == slash_pieces(base)
}

/// The pieces of `path` after those of `base`, joined by `/`.
pub open spec fn pieces_after(base: Seq<char>, path: Seq<char>) -> Seq<char> {
    join_with(slash_pieces(path).skip(slash_pieces(base).len() as int), seq!['/'])
}

/// `root` and `file` with the platform's separator, `/` or `\`, between.
pub open spec fn joined(root: Seq<char>, file: Seq<char>, r: Seq<char>) -> bool {
    r == root + seq!['/'] + file || r == root + seq!['\\'] + file
}

/// Whether a piece holds no `/`, `:` or `\`.
pub open spec fn plain_piece(p: Seq<char>) -> bool {
    forall|k: int| 0 <= k < p.len() ==> p[k] != '/' && p[k] != ':' && p[k] != '\\'
}

proof fn lemma_pieces_plain(s: Seq<char>, cur: Seq<char>)
    requires
        plain_piece(cur),
        !s.contains(':'),
        !s.contains('\\'),
    ensures
        forall|i: int|
            0 <= i < slash_pieces_from(s, cur).len() ==> plain_piece(#[trigger] slash_pieces_from(s, cur)[i]),
    decreases s.len(),
{
    if s.len() == 0 {
        assert(slash_pieces_from(s, cur) == seq![cur]);
        assert(seq![cur][0] == cur);
    } else {
        assert(s.skip(1).contains(':') ==> s.contains(':')) by {
            if s.skip(1).contains(':') {
                let k = choose|k: int| 0 <= k < s.skip(1).len() && s.skip(1)[k] == ':';
                assert(s[k + 1] == ':');
            }
        }
        assert(s.skip(1).contains('\\') ==> s.contains('\\')) by {
            if s.skip(1).contains('\\') {
                let k = choose|k: int| 0 <= k < s.skip(1).len() && s.skip(1)[k] == '\\';
                assert(s[k + 1] == '\\');
            }
        }
        if s[0] == '/' {
            lemma_pieces_plain(s.skip(1), seq![]);
            let rest = slash_pieces_from(s.skip(1), seq![]);
            assert(slash_pieces_from(s, cur) == seq![cur] + rest);
            assert forall|i: int| 0 <= i < (seq![cur] + rest).len() implies plain_piece(#[trigger] (seq![cur] + rest)[i]) by {
                if i > 0 {
                    assert((seq![cur] + rest)[i] == rest[i - 1]);
                } else {
                    assert((seq![cur] + rest)[i] == cur);
                }
            }
        } else {
            assert(s[0] != ':' && s[0] != '\\') by {
                if s[0] == ':' { assert(s.contains(':')); }
                if s[0] == '\\' { assert(s.contains('\\')); }
            }
            assert forall|k: int| 0 <= k < cur.push(s[0]).len() implies cur.push(s[0])[k] != '/' && cur.push(s[0])[k] != ':' && cur.push(s[0])[k] != '\\' by {
                if k < cur.len() {
                    assert(cur.push(s[0])[k] == cur[k]);
                }
            }
            lemma_pieces_plain(s.skip(1), cur.push(s[0]));
            assert(slash_pieces_from(s, cur) == slash_pieces_from(s.skip(1), cur.push(s[0])));
        }
    }
}

proof fn lemma_named_plain(ps: Seq<Seq<char>>)
    requires
        forall|i: int| 0 <= i < ps.len() ==> plain_piece(#[trigger] ps[i]),
    ensures
        forall|i: int|
            0 <= i < named_pieces(ps).len() ==> plain_piece(#[trigger] named_pieces(ps)[i]) && named_pieces(
                ps,
            )[i].len() > 0,
    decreases ps.len(),
{
    if ps.len() > 0 {
        assert forall|i: int| 0 <= i < ps.drop_last().len() implies plain_piece(#[trigger] ps.drop_last()[i]) by {
            assert(ps.drop_last()[i] == ps[i]);
        }
        lemma_named_plain(ps.drop_last());
        assert(plain_piece(ps[ps.len() - 1]));
        let rest = named_pieces(ps.drop_last());
        let p = ps.last();
        if p.len() > 0 && p != seq!['.'] {
            assert(named_pieces(ps) == rest.push(p));
            assert forall|i: int| 0 <= i < rest.push(p).len() implies plain_piece(#[trigger] rest.push(p)[i]) && rest.push(p)[i].len() > 0 by {
                if i < rest.len() {
                    assert(rest.push(p)[i] == rest[i]);
                }
            }
        } else {
            assert(named_pieces(ps) == rest);
        }
    }
}

/// The file name of a path that splits at `/` alone is a non-empty piece
/// without `/`, `:` or `\`.
pub proof fn lemma_file_name_plain(s: Seq<char>)
    requires
        slash_path(s),
        file_name_of(s) is Some,
    ensures
        file_name_of(s)->0.len() > 0,
        !file_name_of(s)->0.contains('/'),
        !file_name_of(s)->0.contains(':'),
        !file_name_of(s)->0.contains('\\'),
{
    assert(plain_piece(Seq::<char>::empty()));
    lemma_pieces_plain(s, seq![]);
    lemma_named_plain(slash_pieces(s));
    let names = named_pieces(slash_pieces(s));
    let n = names.last();
    assert(plain_piece(names[names.len() - 1]));
    if n.contains('/') {
        let k = choose|k: int| 0 <= k < n.len() && n[k] == '/';
    }
    if n.contains(':') {
        let k = choose|k: int| 0 <= k < n.len() && n[k] == ':';
    }
    if n.contains('\\') {
        let k = choose|k: int| 0 <= k < n.len() && n[k] == '\\';
    }
}

/// The pieces of a path without `:` or `\\` hold no `/`, `:` or `\\`.
pub proof fn lemma_slash_pieces_plain(s: Seq<char>)
    requires
        !s.contains(':'),
        !s.contains('\\'),
    ensures
        forall|i: int| 0 <= i < slash_pieces(s).len() ==> plain_piece(#[trigger] slash_pieces(s)[i]),
{
    assert(plain_piece(Seq::<char>::empty()));
    lemma_pieces_plain(s, seq![]);
}

/// Non-empty pieces without `/`, `:` or `\\`, joined by `/`, give a text that
/// starts with the first piece's first character and holds no `:` or `\\`.
pub proof fn lemma_join_plain(segs: Seq<Seq<char>>)
    requires
        segs.len() > 0,
        forall|i: int| 0 <= i < segs.len() ==> plain_piece(#[trigger] segs[i]) && segs[i].len() > 0,
    ensures
        join_with(segs, seq!['/']).len() > 0,
        join_with(segs, seq!['/'])[0] == segs[0][0],
        !join_with(segs, seq!['/']).contains(':'),
        !join_with(segs, seq!['/']).contains('\\'),
    decreases segs.len(),
{
    assert(plain_piece(segs[0]) && segs[0].len() > 0);
    if segs.len() == 1 {
        let j = join_with(segs, seq!['/']);
        assert(j == segs[0]);
        if j.contains(':') {
            let k = choose|k: int| 0 <= k < j.len() && j[k] == ':';
        }
        if j.contains('\\') {
            let k = choose|k: int| 0 <= k < j.len() && j[k] == '\\';
        }
    } else {
        let d = segs.drop_last();
        assert forall|i: int| 0 <= i < d.len() implies plain_piece(#[trigger] d[i]) && d[i].len() > 0 by {
            assert(d[i] == segs[i]);
        }
        lemma_join_plain(d);
        let a = join_with(d, seq!['/']);
        let l = segs.last();
        assert(plain_piece(segs[segs.len() - 1]));
        let j = join_with(segs, seq!['/']);
        assert(j == a + seq!['/'] + l);
        assert(d[0] == segs[0]);
        if j.contains(':') {
            let k = choose|k: int| 0 <= k < j.len() && j[k] == ':';
            if k < a.len() {
                assert(a[k] == ':');
                assert(a.contains(':'));
            } else if k > a.len() {
                assert(l[k - a.len() - 1] == ':');
            }
        }
        if j.contains('\\') {
            let k = choose|k: int| 0 <= k < j.len() && j[k] == '\\';
            if k < a.len() {
                assert(a[k] == '\\');
                assert(a.contains('\\'));
            } else if k > a.len() {
                assert(l[k - a.len() - 1] == '\\');
            }
        }
    }
}

/// Splitting at `/` gives at least one piece.
pub proof fn lemma_pieces_len(s: Seq<char>, cur: Seq<char>)
    ensures
        slash_pieces_from(s, cur).len() >= 1,
    decreases s.len(),
{
    if s.len() > 0 {
        if s[0] == '/' {
            lemma_pieces_len(s.skip(1), seq![]);
        } else {
            lemma_pieces_len(s.skip(1), cur.push(s[0]));
        }
    }
}

} // verus!
