//! Reading back what the text writer wrote gives the same groups.

use vstd::prelude::*;

use crate::chars::{
    dec_text, hex_text, is_dec_digit, is_trimmed, is_ws, lemma_dec_text, lemma_hex_text,
    lemma_pow16_32, lemma_trim_padded, trim,
};
use crate::files::FileGroup;
use crate::human::human_size;
use crate::lines::group_header_values;
use crate::reader::{first_content, group_step, group_view, groups_from, paths_from, GroupStep, PathsStep};
use crate::scan::{digit_run, find_char, line_end};
use crate::error::ReportError;
use crate::files::{texts, ReportHeader};
use crate::outside::{parsed_timestamp, shell_joined, shell_split_words};
use crate::reader::{header_end, header_from, HeaderView};
use crate::text::{
    command_body, group_count_body, group_header_text, group_text, groups_text, header_line_text,
    header_text, path_line, paths_text, stats_body, timestamp_body, version_body,
};

verus! {

/// A path that a text report can hold: not empty, no line end in it, and no
/// whitespace around it.
pub open spec fn valid_path(p: Seq<char>) -> bool {
    p.len() > 0 && is_trimmed(p) && forall|i: int| 0 <= i < p.len() ==> #[trigger] p[i] != '\n'
}

/// A group that a text report can hold.
pub open spec fn valid_group(g: FileGroup) -> bool {
    forall|i: int| 0 <= i < g.files@.len() ==> valid_path(#[trigger] g.files@[i]@)
}

proof fn lemma_line_end_at(t: Seq<char>, pos: int, k: int)
    requires
        0 <= pos,
        0 <= k,
        pos + k < t.len(),
        forall|j: int| pos <= j < pos + k ==> #[trigger] t[j] != '\n',
        t[pos + k] == '\n',
    ensures
        line_end(t, pos) == pos + k + 1,
    decreases k,
{
    if k > 0 {
        lemma_line_end_at(t, pos + 1, k - 1);
    }
}

proof fn lemma_digit_run_at(s: Seq<char>, i: int, j: int)
    requires
        0 <= i <= j <= s.len(),
        forall|k: int| i <= k < j ==> is_dec_digit(#[trigger] s[k]),
        j < s.len() ==> !is_dec_digit(s[j]),
    ensures
        digit_run(s, i) == j,
    decreases j - i,
{
    if i < j {
        lemma_digit_run_at(s, i + 1, j);
    }
}

proof fn lemma_find_char_at(s: Seq<char>, i: int, j: int, c: char)
    requires
        0 <= i <= j < s.len(),
        forall|k: int| i <= k < j ==> #[trigger] s[k] != c,
        s[j] == c,
    ensures
        find_char(s, i, c) == j,
    decreases j - i,
{
    if i < j {
        lemma_find_char_at(s, i + 1, j, c);
    }
}

/// The characters of a human-readable size: digits, `.`, space and unit
/// letters.
proof fn lemma_human_chars(n: nat)
    ensures
        forall|k: int| 0 <= k < human_size(n).len() ==> {
            let c = #[trigger] human_size(n)[k];
            c != '*' && c != '\n' && c != ')'
        },
{
    if n < 1000 {
        lemma_dec_text(n);
    } else {
        let e = crate::human::unit_exp(n, 1);
        let p = crate::human::pow1000(e);
        let t = (n * 10 + p / 2) / p;
        lemma_dec_text(t / 10);
        let d = dec_text(t / 10);
        assert forall|k: int| 0 <= k < human_size(n).len() implies {
            let c = #[trigger] human_size(n)[k];
            c != '*' && c != '\n' && c != ')'
        } by {
            if k < d.len() {
                assert(human_size(n)[k] == d[k]);
            } else {
                assert(t % 10 < 10);
            }
        }
    }
}

/// Each group header line reads back as the length, hash and count it was
/// written with.
pub proof fn lemma_group_header_round_trip(len: u64, hash: u128, count: usize)
    ensures
        group_header_values(group_header_text(len as nat, hash as nat, count as nat)) == Some(
            (len as nat, hash as nat, count as nat),
        ),
{
    let l = group_header_text(len as nat, hash as nat, count as nat);
    let hx = hex_text(hash as nat, 32);
    let d1 = dec_text(len as nat);
    let hs = human_size(len as nat);
    let d2 = dec_text(count as nat);
    lemma_pow16_32();
    lemma_hex_text(hash as nat, 32);
    lemma_dec_text(len as nat);
    lemma_dec_text(count as nat);
    lemma_human_chars(len as nat);
    reveal_strlit(", ");
    reveal_strlit(" B ");
    reveal_strlit("* ");
    let a: int = 34 + d1.len() as int;
    let star: int = a + 6 + hs.len() as int;
    let c: int = star + 2 + d2.len() as int;
    assert(l.len() == c + 1);
    assert(l.subrange(0, 32) =~= hx);
    assert(l.subrange(32, 34) =~= ", "@);
    assert forall|k: int| 34 <= k < a implies is_dec_digit(#[trigger] l[k]) by {
        assert(l[k] == d1[k - 34]);
    }
    lemma_digit_run_at(l, 34, a);
    assert(l.subrange(a, a + 3) =~= " B "@);
    assert forall|k: int| a + 3 <= k < star implies #[trigger] l[k] != '*' by {
        if a + 4 <= k < a + 4 + hs.len() {
            assert(l[k] == hs[k - a - 4]);
        }
    }
    lemma_find_char_at(l, a + 3, star, '*');
    assert(l.subrange(star, star + 2) =~= "* "@);
    assert forall|k: int| star + 2 <= k < c implies is_dec_digit(#[trigger] l[k]) by {
        assert(l[k] == d2[k - star - 2]);
    }
    lemma_digit_run_at(l, star + 2, c);
    assert(l.subrange(34, a) =~= d1);
    assert(l.subrange(star + 2, c) =~= d2);
}


proof fn lemma_group_header_chars(len: u64, hash: u128, count: usize)
    ensures
        ({
            let l = group_header_text(len as nat, hash as nat, count as nat);
            &&& l.len() > 0
            &&& is_trimmed(l)
            &&& l[0] != '#'
            &&& forall|k: int| 0 <= k < l.len() ==> #[trigger] l[k] != '\n'
        }),
{
    let l = group_header_text(len as nat, hash as nat, count as nat);
    let hx = hex_text(hash as nat, 32);
    let d1 = dec_text(len as nat);
    let hs = human_size(len as nat);
    let d2 = dec_text(count as nat);
    lemma_pow16_32();
    lemma_hex_text(hash as nat, 32);
    lemma_dec_text(len as nat);
    lemma_dec_text(count as nat);
    lemma_human_chars(len as nat);
    let a: int = 34 + d1.len() as int;
    let star: int = a + 6 + hs.len() as int;
    let c: int = star + 2 + d2.len() as int;
    assert(l[0] == hx[0]);
    assert(l.last() == ':');
    assert forall|k: int| 0 <= k < l.len() implies #[trigger] l[k] != '\n' by {
        if k < 32 {
            assert(l[k] == hx[k]);
        } else if 34 <= k < a {
            assert(l[k] == d1[k - 34]);
        } else if a + 4 <= k < a + 4 + hs.len() {
            assert(l[k] == hs[k - a - 4]);
        } else if star + 2 <= k < c {
            assert(l[k] == d2[k - star - 2]);
        }
    }
}

/// The paths text of the first `j` paths starts the paths text of all.
proof fn lemma_paths_text_prefix(ps: Seq<Seq<char>>, j: int)
    requires
        0 <= j <= ps.len(),
    ensures
        paths_text(ps.take(j)).len() <= paths_text(ps).len(),
        paths_text(ps).subrange(0, paths_text(ps.take(j)).len() as int) == paths_text(ps.take(j)),
    decreases ps.len(),
{
    if j == ps.len() {
        assert(ps.take(j) =~= ps);
    } else {
        lemma_paths_text_prefix(ps.drop_last(), j);
        assert(ps.drop_last().take(j) =~= ps.take(j));
        let a = paths_text(ps.drop_last());
        assert(paths_text(ps) == a + path_line(ps.last()));
        assert(paths_text(ps).subrange(0, a.len() as int) =~= a);
        assert(paths_text(ps).subrange(0, paths_text(ps.take(j)).len() as int) =~= a.subrange(
            0,
            paths_text(ps.take(j)).len() as int,
        ));
    }
}

proof fn lemma_read_paths(t: Seq<char>, start: int, ps: Seq<Seq<char>>, i: int)
    requires
        0 <= start,
        start + paths_text(ps).len() <= t.len(),
        t.subrange(start, start + paths_text(ps).len()) == paths_text(ps),
        forall|k: int| 0 <= k < ps.len() ==> valid_path(#[trigger] ps[k]),
        0 <= i <= ps.len(),
    ensures
        paths_from(t, start + paths_text(ps.take(i)).len(), (ps.len() - i) as nat, ps.take(i))
            == (PathsStep::Done { paths: ps, next: start + paths_text(ps).len() }),
    decreases ps.len() - i,
{
    if i == ps.len() {
        assert(ps.take(i) =~= ps);
    } else {
        let q = start + paths_text(ps.take(i)).len();
        let p = ps[i];
        let pl = path_line(p);
        let next = ps.take(i + 1);
        assert(next.drop_last() =~= ps.take(i));
        assert(paths_text(next) == paths_text(ps.take(i)) + pl);
        lemma_paths_text_prefix(ps, i + 1);
        let e = q + pl.len();
        assert(t.subrange(q, e) =~= pl) by {
            assert forall|k: int| 0 <= k < pl.len() implies t.subrange(q, e)[k] == pl[k] by {
                assert(t.subrange(q, e)[k] == t[q + k]);
                assert(t[q + k] == t.subrange(start, start + paths_text(ps).len())[q + k - start]);
                assert(paths_text(ps)[q + k - start] == paths_text(next)[q + k - start]);
                assert(paths_text(next)[q + k - start] == pl[k]);
            }
        }
        assert(valid_path(p));
        assert forall|j: int| q <= j < q + 4 + p.len() implies #[trigger] t[j] != '\n' by {
            assert(t[j] == t.subrange(q, e)[j - q]);
            if j >= q + 4 {
                assert(pl[j - q] == p[j - q - 4]);
            }
        }
        assert(t[q + 4 + p.len()] == t.subrange(q, e)[4 + p.len() as int]);
        lemma_line_end_at(t, q, 4 + p.len() as int);
        reveal_strlit("    ");
        assert(pl.subrange(0, 4) =~= "    "@);
        assert(is_ws(' ') && is_ws('\n'));
        lemma_trim_padded(seq![' ', ' ', ' ', ' '], p, seq!['\n']);
        assert(seq![' ', ' ', ' ', ' '] + p + seq!['\n'] =~= pl);
        assert(ps.take(i).push(p) =~= next);
        lemma_read_paths(t, start, ps, i + 1);
    }
}

/// A group written in the text format, without colour, reads back as the
/// same group.
pub proof fn lemma_group_round_trip(g: FileGroup, t: Seq<char>, pos: int)
    requires
        valid_group(g),
        g.files@.len() <= usize::MAX,
        0 <= pos,
        pos + group_text(g, false).len() <= t.len(),
        t.subrange(pos, pos + group_text(g, false).len()) == group_text(g, false),
    ensures
        group_step(t, pos) == (GroupStep::Group {
            len: g.file_len.0 as nat,
            hash: g.file_hash.0 as nat,
            paths: g.paths(),
            next: pos + group_text(g, false).len(),
        }),
{
    let count = g.files@.len();
    let hl = group_header_text(g.file_len.0 as nat, g.file_hash.0 as nat, count as nat);
    let gt = group_text(g, false);
    let ps = g.paths();
    lemma_group_header_chars(g.file_len.0, g.file_hash.0, count as usize);
    lemma_group_header_round_trip(g.file_len.0, g.file_hash.0, count as usize);
    assert(gt == hl + seq!['\n'] + paths_text(ps));
    assert forall|j: int| pos <= j < pos + hl.len() implies #[trigger] t[j] != '\n' by {
        assert(t[j] == t.subrange(pos, pos + gt.len())[j - pos]);
        assert(gt[j - pos] == hl[j - pos]);
    }
    assert(t[pos + hl.len()] == t.subrange(pos, pos + gt.len())[hl.len() as int]);
    lemma_line_end_at(t, pos, hl.len() as int);
    let e = pos + hl.len() + 1;
    assert(t.subrange(pos, e) =~= hl + seq!['\n']) by {
        assert forall|k: int| 0 <= k < hl.len() + 1 implies t.subrange(pos, e)[k] == (hl + seq![
            '\n',
        ])[k] by {
            assert(t.subrange(pos, e)[k] == t.subrange(pos, pos + gt.len())[k]);
        }
    }
    assert(is_ws('\n'));
    lemma_trim_padded(Seq::empty(), hl, seq!['\n']);
    assert(Seq::<char>::empty() + hl + seq!['\n'] =~= hl + seq!['\n']);
    assert(first_content(t, pos) == (Some(hl), e));
    assert(ps.len() == count);
    assert forall|k: int| 0 <= k < ps.len() implies valid_path(#[trigger] ps[k]) by {
        assert(ps[k] == g.files@[k]@);
    }
    assert(t.subrange(e, e + paths_text(ps).len()) =~= paths_text(ps)) by {
        assert forall|k: int| 0 <= k < paths_text(ps).len() implies t.subrange(
            e,
            e + paths_text(ps).len(),
        )[k] == paths_text(ps)[k] by {
            assert(t.subrange(e, e + paths_text(ps).len())[k] == t.subrange(pos, pos + gt.len())[k
                + hl.len() + 1]);
        }
    }
    lemma_read_paths(t, e, ps, 0);
    assert(ps.take(0) =~= Seq::<Seq<char>>::empty());
    assert(paths_text(ps.take(0)).len() == 0);
}


proof fn lemma_groups_text_prefix(gs: Seq<FileGroup>, j: int)
    requires
        0 <= j <= gs.len(),
    ensures
        groups_text(gs.take(j), false).len() <= groups_text(gs, false).len(),
        groups_text(gs, false).subrange(0, groups_text(gs.take(j), false).len() as int)
            == groups_text(gs.take(j), false),
    decreases gs.len(),
{
    if j == gs.len() {
        assert(gs.take(j) =~= gs);
    } else {
        lemma_groups_text_prefix(gs.drop_last(), j);
        assert(gs.drop_last().take(j) =~= gs.take(j));
        let a = groups_text(gs.drop_last(), false);
        assert(groups_text(gs, false).subrange(0, a.len() as int) =~= a);
        assert(groups_text(gs, false).subrange(0, groups_text(gs.take(j), false).len() as int)
            =~= a.subrange(0, groups_text(gs.take(j), false).len() as int));
    }
}

proof fn lemma_read_groups(t: Seq<char>, start: int, gs: Seq<FileGroup>, i: int)
    requires
        0 <= start,
        t.len() == start + groups_text(gs, false).len(),
        t.subrange(start, t.len() as int) == groups_text(gs, false),
        forall|k: int| 0 <= k < gs.len() ==> valid_group(#[trigger] gs[k]),
        forall|k: int| 0 <= k < gs.len() ==> (#[trigger] gs[k]).files@.len() <= usize::MAX,
        0 <= i <= gs.len(),
    ensures
        groups_from(t, start + groups_text(gs.take(i), false).len()) == Some(
            gs.skip(i).map_values(|g: FileGroup| group_view(g)),
        ),
    decreases gs.len() - i,
{
    let q = start + groups_text(gs.take(i), false).len();
    if i == gs.len() {
        assert(gs.take(i) =~= gs);
        assert(t.subrange(q, line_end(t, q)).len() == 0);
        assert(trim(Seq::<char>::empty()) =~= Seq::<char>::empty());
        assert(gs.skip(i).map_values(|g: FileGroup| group_view(g)) =~= Seq::<
            (nat, nat, Seq<Seq<char>>),
        >::empty());
    } else {
        let g = gs[i];
        let gt = group_text(g, false);
        let next = gs.take(i + 1);
        assert(next.drop_last() =~= gs.take(i));
        lemma_groups_text_prefix(gs, i + 1);
        let T = groups_text(gs, false);
        assert(t.subrange(q, q + gt.len()) =~= gt) by {
            assert forall|k: int| 0 <= k < gt.len() implies t.subrange(q, q + gt.len())[k]
                == gt[k] by {
                assert(t[q + k] == t.subrange(start, t.len() as int)[q + k - start]);
                assert(T[q + k - start] == groups_text(next, false)[q + k - start]);
            }
        }
        lemma_group_round_trip(g, t, q);
        assert(gt.len() > 0);
        lemma_read_groups(t, start, gs, i + 1);
        assert(gs.skip(i).map_values(|g: FileGroup| group_view(g)) =~= seq![group_view(g)]
            + gs.skip(i + 1).map_values(|g: FileGroup| group_view(g)));
    }
}

/// The groups written in the text format, without colour, read back as the
/// same groups, in the same order, wherever they stand at the end of a text.
pub proof fn lemma_groups_round_trip(gs: Seq<FileGroup>, t: Seq<char>, start: int)
    requires
        forall|k: int| 0 <= k < gs.len() ==> valid_group(#[trigger] gs[k]),
        forall|k: int| 0 <= k < gs.len() ==> (#[trigger] gs[k]).files@.len() <= usize::MAX,
        0 <= start,
        t.len() == start + groups_text(gs, false).len(),
        t.subrange(start, t.len() as int) == groups_text(gs, false),
    ensures
        groups_from(t, start) == Some(gs.map_values(|g: FileGroup| group_view(g))),
{
    lemma_read_groups(t, start, gs, 0);
    assert(gs.take(0) =~= Seq::<FileGroup>::empty());
    assert(gs.skip(0) =~= gs);
}


/// Three runs of decimal digits separated by dots, such as `0.12.3`.
pub open spec fn is_version(v: Seq<char>) -> bool {
    let a = digit_run(v, 0);
    let b = digit_run(v, a + 1);
    let c = digit_run(v, b + 1);
    a > 0 && a < v.len() && v[a] == '.' && b > a + 1 && b < v.len() && v[b] == '.' && c > b + 1
        && c == v.len()
}

/// A text that fits on one trimmed header line after its label.
pub open spec fn one_line(s: Seq<char>) -> bool {
    s.len() > 0 && is_trimmed(s) && forall|i: int| 0 <= i < s.len() ==> #[trigger] s[i] != '\n'
}

proof fn lemma_digit_run_shift(p: Seq<char>, v: Seq<char>, i: int)
    requires
        0 <= i <= v.len(),
    ensures
        digit_run(p + v, p.len() + i) == p.len() + digit_run(v, i),
    decreases v.len() - i,
{
    if i < v.len() {
        assert((p + v)[p.len() + i] == v[i]);
        lemma_digit_run_shift(p, v, i + 1);
    }
}

proof fn lemma_digit_run_bounds(v: Seq<char>, i: int)
    requires
        0 <= i <= v.len(),
    ensures
        i <= digit_run(v, i) <= v.len(),
    decreases v.len() - i,
{
    if i < v.len() {
        lemma_digit_run_bounds(v, i + 1);
    }
}

/// A line `l` and its line end stand in `t` at `pos`.
proof fn lemma_line_at(t: Seq<char>, pos: int, l: Seq<char>)
    requires
        0 <= pos,
        pos + l.len() + 1 <= t.len(),
        t.subrange(pos, pos + l.len() + 1) == l + seq!['\n'],
        one_line(l),
    ensures
        line_end(t, pos) == pos + l.len() + 1,
        trim(t.subrange(pos, pos + l.len() + 1)) == l,
{
    let w = l + seq!['\n'];
    assert forall|j: int| pos <= j < pos + l.len() implies #[trigger] t[j] != '\n' by {
        assert(t[j] == t.subrange(pos, pos + l.len() + 1)[j - pos]);
        assert(w[j - pos] == l[j - pos]);
    }
    assert(t[pos + l.len()] == t.subrange(pos, pos + l.len() + 1)[l.len() as int]);
    lemma_line_end_at(t, pos, l.len() as int);
    assert(is_ws('\n'));
    lemma_trim_padded(Seq::empty(), l, seq!['\n']);
    assert(Seq::<char>::empty() + l + seq!['\n'] =~= w);
}

proof fn lemma_version_chars(v: Seq<char>)
    requires
        is_version(v),
    ensures
        forall|i: int| 0 <= i < v.len() ==> #[trigger] v[i] != '\n',
        !is_ws(v.last()),
{
    let a = digit_run(v, 0);
    lemma_digit_run_bounds(v, 0);
    lemma_digit_run_bounds(v, a + 1);
    let b = digit_run(v, a + 1);
    lemma_digit_run_bounds(v, b + 1);
    crate::lines::lemma_digit_run_all_dec(v, b + 1);
    assert(v.last() == v.subrange(b + 1, v.len() as int)[v.len() - b - 2]);
    assert forall|i: int| 0 <= i < v.len() implies #[trigger] v[i] != '\n' by {
        if i < a {
            crate::lines::lemma_digit_run_all_dec(v, 0);
            assert(v[i] == v.subrange(0, a)[i]);
        } else if a < i < b {
            crate::lines::lemma_digit_run_all_dec(v, a + 1);
            assert(v[i] == v.subrange(a + 1, b)[i - a - 1]);
        } else if b < i {
            assert(v[i] == v.subrange(b + 1, v.len() as int)[i - b - 1]);
        }
    }
}

proof fn lemma_version_capture(v: Seq<char>)
    requires
        is_version(v),
    ensures
        crate::lines::version_capture("# Report by fclones "@ + v) == Some(v),
        one_line("# Report by fclones "@ + v),
{
    reveal_strlit("# Report by fclones ");
    let p = "# Report by fclones "@;
    let l = p + v;
    let a = digit_run(v, 0);
    lemma_digit_run_bounds(v, 0);
    lemma_digit_run_bounds(v, a + 1);
    let b = digit_run(v, a + 1);
    lemma_digit_run_bounds(v, b + 1);
    lemma_digit_run_shift(p, v, 0);
    lemma_digit_run_shift(p, v, a + 1);
    lemma_digit_run_shift(p, v, b + 1);
    assert(l.subrange(0, p.len() as int) =~= p);
    assert(l.subrange(p.len() as int, (p.len() + v.len()) as int) =~= v);
    assert(l[p.len() + a] == v[a]);
    assert(l[p.len() + b] == v[b]);
    crate::lines::lemma_digit_run_all_dec(v, b + 1);
    assert(is_dec_digit(v.subrange(b + 1, v.len() as int)[0]));
    assert(l.last() == v.last());
    assert(v.last() == v.subrange(b + 1, v.len() as int)[v.len() - b - 2]);
    lemma_version_chars(v);
    assert forall|i: int| 0 <= i < l.len() implies #[trigger] l[i] != '\n' by {
        if i >= p.len() {
            assert(l[i] == v[i - p.len()]);
        }
    }
}

proof fn lemma_rest_capture(p: Seq<char>, x: Seq<char>)
    requires
        one_line(x),
        p.len() > 0,
        !is_ws(p[0]),
        forall|i: int| 0 <= i < p.len() ==> #[trigger] p[i] != '\n',
    ensures
        crate::lines::rest_capture(p + x, p) == Some(x),
        one_line(p + x),
{
    let l = p + x;
    assert(l.subrange(0, p.len() as int) =~= p);
    assert(l.subrange(p.len() as int, l.len() as int) =~= x);
    assert(l.last() == x.last());
    assert forall|i: int| 0 <= i < l.len() implies #[trigger] l[i] != '\n' by {
        if i >= p.len() {
            assert(l[i] == x[i - p.len()]);
        }
    }
}


proof fn lemma_dec_one_line(n: nat)
    ensures
        forall|i: int| 0 <= i < dec_text(n).len() ==> {
            let c = #[trigger] dec_text(n)[i];
            is_dec_digit(c) && c != '\n' && !is_ws(c)
        },
        dec_text(n).len() > 0,
{
    lemma_dec_text(n);
}

proof fn lemma_group_count_capture(n: usize)
    ensures
        crate::lines::group_count_capture(crate::text::header_line_text(
            crate::text::group_count_body(n as nat),
        )) == Some(dec_text(n as nat)),
        one_line(crate::text::header_line_text(crate::text::group_count_body(n as nat))),
{
    reveal_strlit("# Found ");
    reveal_strlit("Found ");
    reveal_strlit(" file groups");
    let d = dec_text(n as nat);
    lemma_dec_one_line(n as nat);
    let l = crate::text::header_line_text(crate::text::group_count_body(n as nat));
    let m: int = 8 + d.len() as int;
    assert(l =~= "# Found "@ + d + " file groups"@);
    assert forall|k: int| 8 <= k < m implies is_dec_digit(#[trigger] l[k]) by {
        assert(l[k] == d[k - 8]);
    }
    lemma_digit_run_at(l, 8, m);
    assert(l.subrange(0, 8) =~= "# Found "@);
    assert(l.subrange(m, m + 12) =~= " file groups"@);
    assert(l.subrange(8, m) =~= d);
    assert forall|k: int| 0 <= k < l.len() implies #[trigger] l[k] != '\n' by {
        if 8 <= k < m {
            assert(l[k] == d[k - 8]);
        }
    }
}

proof fn lemma_stats_capture(size: u64, count: usize)
    ensures
        crate::lines::stats_capture(crate::text::header_line_text(
            crate::text::stats_body(size as nat, count as nat),
        )) == Some((dec_text(size as nat), dec_text(count as nat))),
        one_line(crate::text::header_line_text(crate::text::stats_body(size as nat, count as nat))),
{
    reveal_strlit("# ");
    reveal_strlit(" B (");
    reveal_strlit(") in ");
    reveal_strlit(" redundant files can be removed");
    let d1 = dec_text(size as nat);
    let hs = human_size(size as nat);
    let d2 = dec_text(count as nat);
    lemma_dec_one_line(size as nat);
    lemma_dec_one_line(count as nat);
    lemma_human_chars(size as nat);
    let l = crate::text::header_line_text(crate::text::stats_body(size as nat, count as nat));
    assert(l =~= "# "@ + d1 + " B ("@ + hs + ") in "@ + d2 + " redundant files can be removed"@);
    let a: int = 2 + d1.len() as int;
    let b: int = a + 4 + hs.len() as int;
    let c: int = b + 5 + d2.len() as int;
    assert(hs.len() > 0) by {
        if size < 1000 {
        } else {
        }
    }
    assert forall|k: int| 2 <= k < a implies is_dec_digit(#[trigger] l[k]) by {
        assert(l[k] == d1[k - 2]);
    }
    lemma_digit_run_at(l, 2, a);
    assert forall|k: int| a + 4 <= k < b implies #[trigger] l[k] != ')' by {
        assert(l[k] == hs[k - a - 4]);
    }
    lemma_find_char_at(l, a + 4, b, ')');
    assert forall|k: int| b + 5 <= k < c implies is_dec_digit(#[trigger] l[k]) by {
        assert(l[k] == d2[k - b - 5]);
    }
    lemma_digit_run_at(l, b + 5, c);
    assert(l.subrange(0, 2) =~= "# "@);
    assert(l.subrange(a, a + 4) =~= " B ("@);
    assert(l.subrange(b, b + 5) =~= ") in "@);
    assert(l.subrange(c, c + 31) =~= " redundant files can be removed"@);
    assert(l.subrange(2, a) =~= d1);
    assert(l.subrange(b + 5, c) =~= d2);
    assert forall|k: int| 0 <= k < l.len() implies #[trigger] l[k] != '\n' by {
        if 2 <= k < a {
            assert(l[k] == d1[k - 2]);
        } else if a + 4 <= k < b {
            assert(l[k] == hs[k - a - 4]);
        } else if b + 5 <= k < c {
            assert(l[k] == d2[k - b - 5]);
        }
    }
}


proof fn lemma_split(t: Seq<char>, x: Seq<char>, y: Seq<char>)
    requires
        (x.len() + y.len()) as int <= t.len(),
        t.subrange(0, (x.len() + y.len()) as int) == x + y,
    ensures
        t.subrange(0, x.len() as int) == x,
        t.subrange(x.len() as int, (x.len() + y.len()) as int) == y,
{
    let n: int = (x.len() + y.len()) as int;
    assert forall|k: int| 0 <= k < x.len() implies t.subrange(0, x.len() as int)[k] == x[k] by {
        assert(t[k] == t.subrange(0, n)[k]);
        assert((x + y)[k] == x[k]);
    }
    assert forall|k: int| 0 <= k < y.len() implies t.subrange(x.len() as int, n)[k] == y[k] by {
        assert(t[x.len() + k] == t.subrange(0, n)[x.len() + k]);
        assert((x + y)[x.len() + k] == y[k]);
    }
    assert(t.subrange(0, x.len() as int) =~= x);
    assert(t.subrange(x.len() as int, n) =~= y);
}

proof fn lemma_piece(t: Seq<char>, h: Seq<char>, p: int, x: Seq<char>)
    requires
        h.len() <= t.len(),
        t.subrange(0, h.len() as int) == h,
        0 <= p,
        p + x.len() <= h.len(),
        h.subrange(p, p + x.len()) == x,
    ensures
        t.subrange(p, p + x.len()) == x,
{
    assert forall|k: int| 0 <= k < x.len() implies t.subrange(p, p + x.len())[k] == x[k] by {
        assert(t[p + k] == t.subrange(0, h.len() as int)[p + k]);
        assert(h[p + k] == h.subrange(p, p + x.len())[k]);
    }
    assert(t.subrange(p, p + x.len()) =~= x);
}

proof fn lemma_five_lines(
    t: Seq<char>,
    l1: Seq<char>,
    l2: Seq<char>,
    l3: Seq<char>,
    l4: Seq<char>,
    l5: Seq<char>,
)
    requires
        one_line(l1),
        one_line(l2),
        one_line(l3),
        one_line(l4),
        one_line(l5),
        ({
            let nl = seq!['\n'];
            let all = ((((l1 + nl) + (l2 + nl)) + (l3 + nl)) + (l4 + nl)) + (l5 + nl);
            all.len() <= t.len() && t.subrange(0, all.len() as int) == all
        }),
    ensures
        ({
            let at1: int = l1.len() as int + 1;
            let at2: int = at1 + l2.len() as int + 1;
            let at3: int = at2 + l3.len() as int + 1;
            let at4: int = at3 + l4.len() as int + 1;
            let at5: int = at4 + l5.len() as int + 1;
            &&& line_end(t, 0) == at1 && trim(t.subrange(0, at1)) == l1
            &&& line_end(t, at1) == at2 && trim(t.subrange(at1, at2)) == l2
            &&& line_end(t, at2) == at3 && trim(t.subrange(at2, at3)) == l3
            &&& line_end(t, at3) == at4 && trim(t.subrange(at3, at4)) == l4
            &&& line_end(t, at4) == at5 && trim(t.subrange(at4, at5)) == l5
        }),
{
    let nl = seq!['\n'];
    let a1 = l1 + nl;
    let a2 = l2 + nl;
    let a3 = l3 + nl;
    let a4 = l4 + nl;
    let a5 = l5 + nl;
    let q2 = a1 + a2;
    let q3 = q2 + a3;
    let q4 = q3 + a4;
    lemma_split(t, q4, a5);
    lemma_split(t, q3, a4);
    lemma_split(t, q2, a3);
    lemma_split(t, a1, a2);
    lemma_line_at(t, 0, l1);
    lemma_line_at(t, a1.len() as int, l2);
    lemma_line_at(t, q2.len() as int, l3);
    lemma_line_at(t, q3.len() as int, l4);
    lemma_line_at(t, q4.len() as int, l5);
}

proof fn lemma_header_text_lines(h: ReportHeader, ts: Seq<char>)
    requires
        h.stats is Some,
    ensures
        ({
            let st = h.stats.unwrap();
            let nl = seq!['\n'];
            let l1 = header_line_text(version_body(h.version@));
            let l2 = header_line_text(timestamp_body(ts));
            let l3 = header_line_text(command_body(shell_joined(texts(h.command@))));
            let l4 = header_line_text(group_count_body(st.group_count as nat));
            let l5 = header_line_text(
                stats_body(st.redundant_file_size.0 as nat, st.redundant_file_count as nat),
            );
            header_text(h, ts, false) == ((((l1 + nl) + (l2 + nl)) + (l3 + nl)) + (l4 + nl)) + (l5
                + nl)
        }),
{
    let st = h.stats.unwrap();
    let nl = seq!['\n'];
    let l1 = header_line_text(version_body(h.version@));
    let l2 = header_line_text(timestamp_body(ts));
    let l3 = header_line_text(command_body(shell_joined(texts(h.command@))));
    let l4 = header_line_text(group_count_body(st.group_count as nat));
    let l5 = header_line_text(
        stats_body(st.redundant_file_size.0 as nat, st.redundant_file_count as nat),
    );
    assert(header_text(h, ts, false) =~= ((((l1 + nl) + (l2 + nl)) + (l3 + nl)) + (l4 + nl)) + (l5
        + nl));
}

proof fn lemma_three_lines(t: Seq<char>, l1: Seq<char>, l2: Seq<char>, l3: Seq<char>)
    requires
        one_line(l1),
        one_line(l2),
        one_line(l3),
        ({
            let nl = seq!['\n'];
            let all = ((l1 + nl) + (l2 + nl)) + (l3 + nl);
            all.len() <= t.len() && t.subrange(0, all.len() as int) == all
        }),
    ensures
        ({
            let at1: int = l1.len() as int + 1;
            let at2: int = at1 + l2.len() as int + 1;
            let at3: int = at2 + l3.len() as int + 1;
            &&& line_end(t, 0) == at1 && trim(t.subrange(0, at1)) == l1
            &&& line_end(t, at1) == at2 && trim(t.subrange(at1, at2)) == l2
            &&& line_end(t, at2) == at3 && trim(t.subrange(at2, at3)) == l3
        }),
{
    let nl = seq!['\n'];
    let a1 = l1 + nl;
    let a2 = l2 + nl;
    let a3 = l3 + nl;
    let q2 = a1 + a2;
    lemma_split(t, q2, a3);
    lemma_split(t, a1, a2);
    lemma_line_at(t, 0, l1);
    lemma_line_at(t, a1.len() as int, l2);
    lemma_line_at(t, q2.len() as int, l3);
}

proof fn lemma_bare_header_text_lines(h: ReportHeader, ts: Seq<char>)
    requires
        h.stats is None,
    ensures
        ({
            let nl = seq!['\n'];
            let l1 = header_line_text(version_body(h.version@));
            let l2 = header_line_text(timestamp_body(ts));
            let l3 = header_line_text(command_body(shell_joined(texts(h.command@))));
            header_text(h, ts, false) == ((l1 + nl) + (l2 + nl)) + (l3 + nl)
        }),
{
    let nl = seq!['\n'];
    let l1 = header_line_text(version_body(h.version@));
    let l2 = header_line_text(timestamp_body(ts));
    let l3 = header_line_text(command_body(shell_joined(texts(h.command@))));
    assert(header_text(h, ts, false) =~= ((l1 + nl) + (l2 + nl)) + (l3 + nl));
}

proof fn lemma_trim_end_keeps_first(s: Seq<char>)
    requires
        s.len() > 0,
        !is_ws(s[0]),
    ensures
        crate::chars::trim_end(s).len() > 0,
        crate::chars::trim_end(s)[0] == s[0],
    decreases s.len(),
{
    if is_ws(s.last()) {
        assert(s.len() > 1);
        assert(s.drop_last()[0] == s[0]);
        lemma_trim_end_keeps_first(s.drop_last());
    }
}

/// Where what follows the command line is no `#` line, no statistics are
/// read there.
proof fn lemma_no_stats_after(t: Seq<char>, at: int)
    requires
        0 <= at <= t.len(),
        at == t.len() || (t[at] != '#' && !is_ws(t[at])),
    ensures
        crate::lines::group_count_capture(trim(t.subrange(at, line_end(t, at)))) is None,
{
    reveal_strlit("# Found ");
    crate::scan::lemma_line_end(t, at);
    let e = line_end(t, at);
    let line = t.subrange(at, e);
    if at == t.len() {
        assert(line.len() == 0);
        assert(trim(line) =~= line);
    } else {
        assert(line[0] == t[at]);
        lemma_trim_end_keeps_first(line);
        assert(crate::chars::trim_start(line) == line);
        let l = trim(line);
        if crate::scan::lit_at(l, 0, "# Found "@) {
            assert(l.subrange(0, 8)[0] == l[0]);
        }
    }
}

proof fn lemma_first_header_lines(h: ReportHeader, ts: Seq<char>)
    requires
        is_version(h.version@),
        one_line(ts),
        one_line(shell_joined(texts(h.command@))),
    ensures
        crate::lines::version_capture(header_line_text(version_body(h.version@))) == Some(
            h.version@,
        ),
        one_line(header_line_text(version_body(h.version@))),
        crate::lines::rest_capture(header_line_text(timestamp_body(ts)), "# Timestamp: "@)
            == Some(ts),
        one_line(header_line_text(timestamp_body(ts))),
        crate::lines::rest_capture(
            header_line_text(command_body(shell_joined(texts(h.command@)))),
            "# Command: "@,
        ) == Some(shell_joined(texts(h.command@))),
        one_line(header_line_text(command_body(shell_joined(texts(h.command@))))),
{
    let c = shell_joined(texts(h.command@));
    let l1 = header_line_text(version_body(h.version@));
    let l2 = header_line_text(timestamp_body(ts));
    let l3 = header_line_text(command_body(c));
    reveal_strlit("# Report by fclones ");
    reveal_strlit("Report by fclones ");
    reveal_strlit("# Timestamp: ");
    reveal_strlit("Timestamp: ");
    reveal_strlit("# Command: ");
    reveal_strlit("Command: ");
    assert(l1 =~= "# Report by fclones "@ + h.version@);
    assert(l2 =~= "# Timestamp: "@ + ts);
    assert(l3 =~= "# Command: "@ + c);
    lemma_version_capture(h.version@);
    lemma_rest_capture("# Timestamp: "@, ts);
    lemma_rest_capture("# Command: "@, c);
}

proof fn lemma_header_with_stats(h: ReportHeader, ts: Seq<char>, t: Seq<char>)
    requires
        h.stats is Some,
        is_version(h.version@),
        one_line(ts),
        parsed_timestamp(ts) == Some(
            (h.timestamp.secs as int, h.timestamp.nanos as int, h.timestamp.offset_secs as int),
        ),
        one_line(shell_joined(texts(h.command@))),
        shell_split_words(shell_joined(texts(h.command@))) == Some(texts(h.command@)),
        header_text(h, ts, false).len() <= t.len(),
        t.subrange(0, header_text(h, ts, false).len() as int) == header_text(h, ts, false),
        h.stats is None ==> ({
            let n = header_text(h, ts, false).len() as int;
            n == t.len() || (t[n] != '#' && !is_ws(t[n]))
        }),
    ensures
        header_from(t, 0) == Ok::<HeaderView, ReportError>(
            HeaderView {
                version: h.version@,
                timestamp: (
                    h.timestamp.secs as int,
                    h.timestamp.nanos as int,
                    h.timestamp.offset_secs as int,
                ),
                command: texts(h.command@),
                stats: h.stats,
            },
        ),
        header_end(t, 0) == header_text(h, ts, false).len(),
{
    let st = h.stats.unwrap();
    let c = shell_joined(texts(h.command@));
    let l1 = header_line_text(version_body(h.version@));
    let l2 = header_line_text(timestamp_body(ts));
    let l3 = header_line_text(command_body(c));
    let l4 = header_line_text(group_count_body(st.group_count as nat));
    let l5 = header_line_text(
        stats_body(st.redundant_file_size.0 as nat, st.redundant_file_count as nat),
    );
    lemma_first_header_lines(h, ts);
    lemma_group_count_capture(st.group_count);
    lemma_stats_capture(st.redundant_file_size.0, st.redundant_file_count);
    lemma_header_text_lines(h, ts);
    lemma_five_lines(t, l1, l2, l3, l4, l5);
    lemma_dec_text(st.group_count as nat);
    lemma_dec_text(st.redundant_file_size.0 as nat);
    lemma_dec_text(st.redundant_file_count as nat);
}

proof fn lemma_header_without_stats(h: ReportHeader, ts: Seq<char>, t: Seq<char>)
    requires
        h.stats is None,
        is_version(h.version@),
        one_line(ts),
        parsed_timestamp(ts) == Some(
            (h.timestamp.secs as int, h.timestamp.nanos as int, h.timestamp.offset_secs as int),
        ),
        one_line(shell_joined(texts(h.command@))),
        shell_split_words(shell_joined(texts(h.command@))) == Some(texts(h.command@)),
        header_text(h, ts, false).len() <= t.len(),
        t.subrange(0, header_text(h, ts, false).len() as int) == header_text(h, ts, false),
        h.stats is None ==> ({
            let n = header_text(h, ts, false).len() as int;
            n == t.len() || (t[n] != '#' && !is_ws(t[n]))
        }),
    ensures
        header_from(t, 0) == Ok::<HeaderView, ReportError>(
            HeaderView {
                version: h.version@,
                timestamp: (
                    h.timestamp.secs as int,
                    h.timestamp.nanos as int,
                    h.timestamp.offset_secs as int,
                ),
                command: texts(h.command@),
                stats: h.stats,
            },
        ),
        header_end(t, 0) == header_text(h, ts, false).len(),
{
    let c = shell_joined(texts(h.command@));
    let l1 = header_line_text(version_body(h.version@));
    let l2 = header_line_text(timestamp_body(ts));
    let l3 = header_line_text(command_body(c));
    lemma_first_header_lines(h, ts);
    lemma_bare_header_text_lines(h, ts);
    lemma_three_lines(t, l1, l2, l3);
    lemma_no_stats_after(t, header_text(h, ts, false).len() as int);
}

/// The header lines of a text report, without colour, read back as the
/// header they were written from, with or without statistics. Where it has
/// none, what follows the header must not start with `#`, as a group line or
/// the end of the text does not. The timestamp and the command go through
/// chrono and shell-words: their texts must each fit on one line and read
/// back as what was written.
pub proof fn lemma_header_round_trip(h: ReportHeader, ts: Seq<char>, t: Seq<char>)
    requires
        is_version(h.version@),
        one_line(ts),
        parsed_timestamp(ts) == Some(
            (h.timestamp.secs as int, h.timestamp.nanos as int, h.timestamp.offset_secs as int),
        ),
        one_line(shell_joined(texts(h.command@))),
        shell_split_words(shell_joined(texts(h.command@))) == Some(texts(h.command@)),
        header_text(h, ts, false).len() <= t.len(),
        t.subrange(0, header_text(h, ts, false).len() as int) == header_text(h, ts, false),
        h.stats is None ==> ({
            let n = header_text(h, ts, false).len() as int;
            n == t.len() || (t[n] != '#' && !is_ws(t[n]))
        }),
    ensures
        header_from(t, 0) == Ok::<HeaderView, ReportError>(
            HeaderView {
                version: h.version@,
                timestamp: (
                    h.timestamp.secs as int,
                    h.timestamp.nanos as int,
                    h.timestamp.offset_secs as int,
                ),
                command: texts(h.command@),
                stats: h.stats,
            },
        ),
        header_end(t, 0) == header_text(h, ts, false).len(),
{
    lemma_first_header_lines(h, ts);
    if h.stats is Some {
        lemma_header_with_stats(h, ts, t);
    } else {
        lemma_header_without_stats(h, ts, t);
    }
}

/// A whole text report, written without colour, reads back as the header,
/// with or without statistics, and the groups it was written from: `read_header` yields the header and
/// stops where the groups start, and the groups from there on are the groups
/// written, in their order. `ts` is the timestamp text that chrono rendered.
pub proof fn lemma_text_report_round_trip(h: ReportHeader, ts: Seq<char>, gs: Seq<FileGroup>)
    requires
        is_version(h.version@),
        one_line(ts),
        parsed_timestamp(ts) == Some(
            (h.timestamp.secs as int, h.timestamp.nanos as int, h.timestamp.offset_secs as int),
        ),
        one_line(shell_joined(texts(h.command@))),
        shell_split_words(shell_joined(texts(h.command@))) == Some(texts(h.command@)),
        forall|k: int| 0 <= k < gs.len() ==> valid_group(#[trigger] gs[k]),
        forall|k: int| 0 <= k < gs.len() ==> (#[trigger] gs[k]).files@.len() <= usize::MAX,
    ensures
        ({
            let hh = header_text(h, ts, false);
            let t = hh + groups_text(gs, false);
            &&& header_from(t, 0) == Ok::<HeaderView, ReportError>(
                HeaderView {
                    version: h.version@,
                    timestamp: (
                        h.timestamp.secs as int,
                        h.timestamp.nanos as int,
                        h.timestamp.offset_secs as int,
                    ),
                    command: texts(h.command@),
                    stats: h.stats,
                },
            )
            &&& header_end(t, 0) == hh.len()
            &&& groups_from(t, hh.len() as int) == Some(
                gs.map_values(|g: FileGroup| group_view(g)),
            )
        }),
{
    let hh = header_text(h, ts, false);
    let gt = groups_text(gs, false);
    let t = hh + gt;
    assert(t.subrange(0, hh.len() as int) =~= hh);
    assert(t.subrange(hh.len() as int, t.len() as int) =~= gt);
    if gs.len() > 0 {
        let g = gs[0];
        lemma_groups_text_prefix(gs, 1);
        assert(gs.take(1).drop_last() =~= Seq::<FileGroup>::empty());
        assert(gs.take(1).last() == g);
        assert(groups_text(Seq::<FileGroup>::empty(), false) == Seq::<char>::empty());
        let first = group_text(g, false);
        assert(groups_text(gs.take(1), false) =~= first);
        lemma_group_header_chars(g.file_len.0, g.file_hash.0, g.files@.len() as usize);
        let hl = group_header_text(g.file_len.0 as nat, g.file_hash.0 as nat, g.files@.len());
        assert(first[0] == hl[0]);
        assert(gt[0] == gt.subrange(0, first.len() as int)[0]);
        assert(t[hh.len() as int] == gt[0]);
    }
    lemma_header_round_trip(h, ts, t);
    lemma_groups_round_trip(gs, t, hh.len() as int);
}

} // verus!
