//! Best-effort source positions: the first line holding an identifier, and
//! the byte offset at which it occurs there, as `str::lines` and
//! `str::find` give them. A line is ended by `\n` or `\r\n`; a `\r` at
//! the very end of the text, with no newline after it, stays in the last
//! line.
use vstd::prelude::*;
use vstd::utf8::encode_utf8;

verus! {

/// The pieces of `s` between newline bytes, empty ones included.
pub open spec fn split_lines(s: Seq<u8>) -> Seq<Seq<u8>>
    decreases s.len(),
{
    if s.len() == 0 {
        seq![seq![]]
    } else {
        let w = split_lines(s.drop_last());
        if s.last() == 10u8 {
            w.push(seq![])
        } else {
            w.drop_last().push(w.last().push(s.last()))
        }
    }
}

proof fn lemma_split_lines_len(s: Seq<u8>)
    ensures
        split_lines(s).len() >= 1,
    decreases s.len(),
{
    if s.len() > 0 {
        lemma_split_lines_len(s.drop_last());
    }
}

/// A line without its trailing carriage return.
pub open spec fn chomp(l: Seq<u8>) -> Seq<u8> {
    if l.len() > 0 && l.last() == 13u8 {
        l.drop_last()
    } else {
        l
    }
}

pub open spec fn chomp_all(lines: Seq<Seq<u8>>) -> Seq<Seq<u8>>
    decreases lines.len(),
{
    if lines.len() == 0 {
        seq![]
    } else {
        chomp_all(lines.drop_last()).push(chomp(lines.last()))
    }
}

/// The lines of a text's bytes (`str::lines`): the pieces between newlines,
/// each that a newline ended without its trailing `\r`, and the last piece,
/// as it is, where it is not empty.
pub open spec fn lines_of(s: Seq<u8>) -> Seq<Seq<u8>> {
    let parts = split_lines(s);
    let ended = chomp_all(parts.drop_last());
    if parts.last().len() == 0 {
        ended
    } else {
        ended.push(parts.last())
    }
}

pub open spec fn occurs_at(line: Seq<u8>, token: Seq<u8>, j: int) -> bool {
    0 <= j && j + token.len() <= line.len() && line.subrange(j, j + token.len()) == token
}

/// The first byte offset, from `j` on, at which `token` occurs in `line`.
pub open spec fn first_occurrence(line: Seq<u8>, token: Seq<u8>, j: nat) -> Option<nat>
    decreases line.len() + 1 - j,
{
    if j + token.len() > line.len() {
        None
    } else if occurs_at(line, token, j as int) {
        Some(j)
    } else {
        first_occurrence(line, token, j + 1)
    }
}

/// The first line, from `i` on, holding `token`, with the byte offset.
pub open spec fn locate(lines: Seq<Seq<u8>>, token: Seq<u8>, i: nat) -> Option<(nat, nat)>
    decreases lines.len() - i,
{
    if i >= lines.len() {
        None
    } else {
        match first_occurrence(lines[i as int], token, 0) {
            Some(c) => Some((i, c)),
            None => locate(lines, token, i + 1),
        }
    }
}

/// The 0-based line and byte column of the first occurrence of `token` in
/// `source` (both as UTF-8 bytes), or (0, 0) where there is none.
pub open spec fn find_pos_spec(source: Seq<u8>, token: Seq<u8>) -> (nat, nat) {
    match locate(lines_of(source), token, 0) {
        Some(p) => p,
        None => (0, 0),
    }
}

pub open spec fn byte_views(parts: Seq<Vec<u8>>) -> Seq<Seq<u8>> {
    parts.map_values(|p: Vec<u8>| p@)
}

fn occurs(line: &Vec<u8>, token: &[u8], j: usize) -> (r: bool)
    requires
        j + token@.len() <= line.len(),
    ensures
        r == occurs_at(line@, token@, j as int),
{
    let mut k: usize = 0;
    while k < token.len()
        invariant
            k <= token@.len(),
            j + token@.len() <= line.len(),
            forall|t: int| 0 <= t < k ==> line@[j + t] == token@[t],
        decreases token@.len() - k,
    {
        if line[j + k] != token[k] {
            assert(line@.subrange(j as int, j + token@.len())[k as int] != token@[k as int]);
            return false;
        }
        k = k + 1;
    }
    assert(line@.subrange(j as int, j + token@.len()) =~= token@);
    true
}

fn column_of(line: &Vec<u8>, token: &[u8]) -> (r: Option<usize>)
    ensures
        first_occurrence(line@, token@, 0) == match r {
            Some(c) => Some(c as nat),
            None => None::<nat>,
        },
        r is Some ==> r->0 < usize::MAX,
{
    if token.len() > line.len() {
        return None;
    }
    let last = line.len() - token.len();
    let mut j: usize = 0;
    while j <= last
        invariant
            last + token@.len() == line.len(),
            j <= last + 1,
            first_occurrence(line@, token@, 0) == first_occurrence(line@, token@, j as nat),
            token@.len() == 0 ==> j == 0,
        decreases last + 1 - j,
    {
        if occurs(line, token, j) {
            return Some(j);
        }
        if token.len() == 0 {
            assert(line@.subrange(0, 0) =~= token@);
        }
        j = j + 1;
    }
    None
}

fn chomped(l: &Vec<u8>) -> (r: Vec<u8>)
    ensures
        r@ == chomp(l@),
{
    let mut r: Vec<u8> = Vec::new();
    let n = if l.len() > 0 && l[l.len() - 1] == 13u8 {
        l.len() - 1
    } else {
        l.len()
    };
    let mut i: usize = 0;
    while i < n
        invariant
            n <= l.len(),
            i <= n,
            r@ == l@.take(i as int),
        decreases n - i,
    {
        r.push(l[i]);
        i = i + 1;
    }
    assert(r@ =~= chomp(l@));
    r
}

fn split_newlines(v: &[u8]) -> (r: Vec<Vec<u8>>)
    ensures
        byte_views(r@) == split_lines(v@),
{
    let mut parts: Vec<Vec<u8>> = Vec::new();
    parts.push(Vec::new());
    assert(byte_views(parts@) =~= split_lines(v@.take(0)));
    let mut i: usize = 0;
    while i < v.len()
        invariant
            i <= v@.len(),
            byte_views(parts@) == split_lines(v@.take(i as int)),
        decreases v@.len() - i,
    {
        let c = v[i];
        let ghost pre = v@.take(i as int);
        let ghost next = v@.take(i + 1);
        assert(next.drop_last() =~= pre);
        proof {
            lemma_split_lines_len(pre);
        }
        if c == 10u8 {
            parts.push(Vec::new());
            assert(byte_views(parts@) =~= split_lines(next));
        } else {
            let mut last = parts.pop().unwrap();
            last.push(c);
            parts.push(last);
            assert(byte_views(parts@) =~= split_lines(next));
        }
        i = i + 1;
    }
    assert(v@.take(v@.len() as int) =~= v@);
    parts
}

/// The lines of a text's bytes.
pub fn lines(source: &[u8]) -> (r: Vec<Vec<u8>>)
    ensures
        byte_views(r@) == lines_of(source@),
{
    let mut parts = split_newlines(source);
    proof {
        lemma_split_lines_len(source@);
    }
    let ghost pv = byte_views(parts@);
    let last = parts.pop().unwrap();
    assert(pv.last() == last@);
    assert(byte_views(parts@) =~= pv.drop_last());
    let ghost ended = pv.drop_last();
    let mut out: Vec<Vec<u8>> = Vec::new();
    let mut i: usize = 0;
    while i < parts.len()
        invariant
            ended == byte_views(parts@),
            i <= parts.len(),
            byte_views(out@) == chomp_all(ended.take(i as int)),
        decreases parts.len() - i,
    {
        assert(ended[i as int] == parts@[i as int]@);
        let l = chomped(&parts[i]);
        let ghost before = byte_views(out@);
        out.push(l);
        assert(byte_views(out@) =~= before.push(l@));
        assert(ended.take(i + 1).drop_last() =~= ended.take(i as int));
        i = i + 1;
    }
    assert(ended.take(i as int) =~= ended);
    if last.len() > 0 {
        let ghost before = byte_views(out@);
        let ghost lv = last@;
        out.push(last);
        assert(byte_views(out@) =~= before.push(lv));
    }
    out
}

/// The 0-based line and byte column of the first occurrence of `token` in
/// `source`, or (0, 0) where it does not occur.
pub fn find_pos(source: &str, token: &str) -> (r: (usize, usize))
    ensures
        (r.0 as nat, r.1 as nat) == find_pos_spec(encode_utf8(source@), encode_utf8(token@)),
        r.0 < usize::MAX,
        r.1 < usize::MAX,
{
    let ls = lines(source.as_bytes());
    let t = token.as_bytes();
    let ghost lv = byte_views(ls@);
    let mut i: usize = 0;
    while i < ls.len()
        invariant
            i <= ls.len(),
            lv == byte_views(ls@),
            lv == lines_of(encode_utf8(source@)),
            t@ == encode_utf8(token@),
            locate(lv, t@, 0) == locate(lv, t@, i as nat),
        decreases ls.len() - i,
    {
        assert(lv[i as int] == ls@[i as int]@);
        match column_of(&ls[i], t) {
            Some(c) => {
                assert(locate(lv, t@, i as nat) == Some((i as nat, c as nat)));
                return (i, c);
            },
            None => {},
        }
        i = i + 1;
    }
    (0, 0)
}

} // verus!
