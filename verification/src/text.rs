//! Character-level string helpers: splitting on a separator and joining
//! with a separator, specified over `Seq<char>`.
use vstd::prelude::*;

verus! {

/// The views of a sequence of owned strings.
pub open spec fn views(v: Seq<String>) -> Seq<Seq<char>> {
    v.map_values(|p: String| p@)
}

/// The pieces of `s` between occurrences of `sep`, as `str::split` with a
/// `char` pattern yields them: always at least one piece, empty pieces kept.
pub open spec fn split_parts(s: Seq<char>, sep: char) -> Seq<Seq<char>>
    decreases s.len(),
{
    if s.len() == 0 {
        seq![Seq::<char>::empty()]
    } else {
        let prev = split_parts(s.drop_last(), sep);
        if s.last() == sep {
            prev.push(Seq::<char>::empty())
        } else {
            prev.update(prev.len() - 1, prev.last().push(s.last()))
        }
    }
}

/// The pieces of `parts` glued together with `sep` between neighbours, as
/// `[String]::join` does.
pub open spec fn join(parts: Seq<Seq<char>>, sep: Seq<char>) -> Seq<char>
    decreases parts.len(),
{
    if parts.len() == 0 {
        Seq::<char>::empty()
    } else if parts.len() == 1 {
        parts[0]
    } else {
        join(parts.drop_last(), sep) + sep + parts.last()
    }
}

/// Splitting never yields an empty list of pieces.
pub proof fn lemma_split_parts_nonempty(s: Seq<char>, sep: char)
    ensures
        split_parts(s, sep).len() >= 1,
    decreases s.len(),
{
    if s.len() > 0 {
        lemma_split_parts_nonempty(s.drop_last(), sep);
    }
}

/// `s` with every `from` replaced by `to`.
pub open spec fn replace_char(s: Seq<char>, from: char, to: char) -> Seq<char> {
    s.map_values(|c: char| if c == from { to } else { c })
}

/// Appending to the last piece appends to the joined text.
pub proof fn lemma_join_extend_last(q: Seq<Seq<char>>, sep: Seq<char>, x: char)
    requires
        q.len() >= 1,
    ensures
        join(q.update(q.len() - 1, q.last().push(x)), sep) == join(q, sep).push(x),
{
    let q2 = q.update(q.len() - 1, q.last().push(x));
    if q.len() >= 2 {
        assert(q2.drop_last() =~= q.drop_last());
        assert(join(q.drop_last(), sep) + sep + q.last().push(x) =~= (join(q.drop_last(), sep) + sep
            + q.last()).push(x));
    }
}

/// Joining the pieces of `s` split at `from` with `to` between them gives `s`
/// with `from` replaced by `to`.
pub proof fn lemma_join_split_replaces(s: Seq<char>, from: char, to: char)
    ensures
        join(split_parts(s, from), seq![to]) == replace_char(s, from, to),
    decreases s.len(),
{
    if s.len() > 0 {
        let prev = split_parts(s.drop_last(), from);
        lemma_join_split_replaces(s.drop_last(), from, to);
        lemma_split_parts_nonempty(s.drop_last(), from);
        assert(replace_char(s, from, to) =~= replace_char(s.drop_last(), from, to).push(
            if s.last() == from { to } else { s.last() },
        ));
        if s.last() == from {
            assert(prev.push(Seq::<char>::empty()).drop_last() =~= prev);
            assert(join(prev, seq![to]) + seq![to] + Seq::<char>::empty() =~= join(prev, seq![to]).push(
                to,
            ));
        } else {
            lemma_join_extend_last(prev, seq![to], s.last());
        }
    } else {
        assert(replace_char(s, from, to) =~= Seq::<char>::empty());
    }
}

/// Splitting text around a separator splits each side on its own.
pub proof fn lemma_split_around_separator(a: Seq<char>, b: Seq<char>, sep: char)
    ensures
        split_parts(a + seq![sep] + b, sep) == split_parts(a, sep) + split_parts(b, sep),
    decreases b.len(),
{
    lemma_split_parts_nonempty(a, sep);
    if b.len() == 0 {
        assert((a + seq![sep] + b).drop_last() =~= a);
        assert(split_parts(a, sep).push(Seq::<char>::empty()) =~= split_parts(a, sep) + split_parts(
            b,
            sep,
        ));
    } else {
        let b0 = b.drop_last();
        lemma_split_around_separator(a, b0, sep);
        lemma_split_parts_nonempty(b0, sep);
        assert((a + seq![sep] + b).drop_last() =~= a + seq![sep] + b0);
        let pa = split_parts(a, sep);
        let pb = split_parts(b0, sep);
        if b.last() == sep {
            assert((pa + pb).push(Seq::<char>::empty()) =~= pa + pb.push(Seq::<char>::empty()));
        } else {
            assert((pa + pb).update((pa + pb).len() - 1, (pa + pb).last().push(b.last())) =~= pa
                + pb.update(pb.len() - 1, pb.last().push(b.last())));
        }
    }
}

/// Text without the separator is a single piece.
pub proof fn lemma_split_without_separator(s: Seq<char>, sep: char)
    requires
        !s.contains(sep),
    ensures
        split_parts(s, sep) == seq![s],
    decreases s.len(),
{
    if s.len() > 0 {
        assert(!s.drop_last().contains(sep)) by {
            if s.drop_last().contains(sep) {
                let k = choose|k: int| 0 <= k < s.drop_last().len() && s.drop_last()[k] == sep;
                assert(s[k] == sep);
            }
        }
        lemma_split_without_separator(s.drop_last(), sep);
        assert(s.last() != sep) by {
            assert(s[s.len() - 1] == s.last());
        }
        assert(s.drop_last().push(s.last()) =~= s);
        assert(seq![s.drop_last()].update(0, s.drop_last().push(s.last())) =~= seq![s]);
    } else {
        assert(s =~= Seq::<char>::empty());
    }
}

/// Splitting at a separator undoes joining with it, for pieces that do not
/// hold the separator.
pub proof fn law_split_inverts_join(parts: Seq<Seq<char>>, sep: char)
    requires
        parts.len() >= 1,
        forall|i: int| 0 <= i < parts.len() ==> !(#[trigger] parts[i]).contains(sep),
    ensures
        split_parts(join(parts, seq![sep]), sep) == parts,
    decreases parts.len(),
{
    if parts.len() == 1 {
        lemma_split_without_separator(parts[0], sep);
        assert(seq![parts[0]] =~= parts);
    } else {
        let init = parts.drop_last();
        assert forall|i: int| 0 <= i < init.len() implies !(#[trigger] init[i]).contains(sep) by {
            assert(init[i] == parts[i]);
        }
        law_split_inverts_join(init, sep);
        assert(!parts.last().contains(sep)) by {
            assert(parts[parts.len() - 1] == parts.last());
        }
        lemma_split_without_separator(parts.last(), sep);
        lemma_split_around_separator(join(init, seq![sep]), parts.last(), sep);
        assert(init + seq![parts.last()] =~= parts);
    }
}

/// Joining two non-empty lists of pieces joins the two joined texts.
pub proof fn lemma_join_concat(a: Seq<Seq<char>>, b: Seq<Seq<char>>, sep: Seq<char>)
    requires
        a.len() >= 1,
        b.len() >= 1,
    ensures
        join(a + b, sep) == join(a, sep) + sep + join(b, sep),
    decreases b.len(),
{
    if b.len() == 1 {
        assert((a + b).drop_last() =~= a);
        assert((a + b).last() == b[0]);
    } else {
        lemma_join_concat(a, b.drop_last(), sep);
        assert((a + b).drop_last() =~= a + b.drop_last());
        assert((a + b).last() == b.last());
        assert(join(a, sep) + sep + join(b.drop_last(), sep) + sep + b.last() =~= join(a, sep) + sep
            + (join(b.drop_last(), sep) + sep + b.last()));
    }
}

/// The lists of `cols`, one after another.
pub open spec fn flat(cols: Seq<Seq<Seq<char>>>) -> Seq<Seq<char>>
    decreases cols.len(),
{
    if cols.len() == 0 {
        Seq::<Seq<char>>::empty()
    } else {
        flat(cols.drop_last()) + cols.last()
    }
}

/// Joining the joined non-empty lists joins all their pieces.
pub proof fn lemma_join_of_joins(cols: Seq<Seq<Seq<char>>>, sep: Seq<char>)
    requires
        forall|i: int| 0 <= i < cols.len() ==> (#[trigger] cols[i]).len() >= 1,
    ensures
        join(Seq::new(cols.len(), |i: int| join(cols[i], sep)), sep) == join(flat(cols), sep),
        cols.len() >= 1 ==> flat(cols).len() >= 1,
    decreases cols.len(),
{
    let joined = Seq::new(cols.len(), |i: int| join(cols[i], sep));
    if cols.len() == 1 {
        assert(flat(cols.drop_last()) =~= Seq::<Seq<char>>::empty());
        assert(flat(cols) =~= cols[0]);
    } else if cols.len() >= 2 {
        let init = cols.drop_last();
        assert forall|i: int| 0 <= i < init.len() implies (#[trigger] init[i]).len() >= 1 by {
            assert(init[i] == cols[i]);
        }
        lemma_join_of_joins(init, sep);
        assert(joined.drop_last() =~= Seq::new(init.len(), |i: int| join(init[i], sep)));
        assert(cols.last() == cols[cols.len() - 1]);
        lemma_join_concat(flat(init), cols.last(), sep);
    }
}

/// A separator that no piece of `cols` holds is in no piece of `flat(cols)`.
pub proof fn lemma_flat_keeps_pieces(cols: Seq<Seq<Seq<char>>>, c: char)
    requires
        forall|i: int, k: int|
            0 <= i < cols.len() && 0 <= k < cols[i].len() ==> !(#[trigger] cols[i][k]).contains(c),
    ensures
        forall|k: int| 0 <= k < flat(cols).len() ==> !(#[trigger] flat(cols)[k]).contains(c),
    decreases cols.len(),
{
    if cols.len() > 0 {
        let init = cols.drop_last();
        assert forall|i: int, k: int| 0 <= i < init.len() && 0 <= k < init[i].len() implies !(
        #[trigger] init[i][k]).contains(c) by {
            assert(init[i] == cols[i]);
        }
        lemma_flat_keeps_pieces(init, c);
        let f = flat(cols);
        assert forall|k: int| 0 <= k < f.len() implies !(#[trigger] f[k]).contains(c) by {
            let fi = flat(init);
            if k < fi.len() {
                assert(f[k] == fi[k]);
            } else {
                assert(f[k] == cols[cols.len() - 1][k - fi.len()]);
            }
        }
    }
}

/// `String::push`. Claimed: `c` is appended to the characters of `s`.
#[verifier::external_body]
fn push_char(s: &mut String, c: char)
    ensures
        final(s)@ == old(s)@.push(c),
{
    s.push(c);
}

/// Splits `s` at every occurrence of `sep`.
pub fn split(s: &str, sep: char) -> (parts: Vec<String>)
    ensures
        views(parts@) == split_parts(s@, sep),
{
    let mut parts: Vec<String> = Vec::new();
    let mut cur = String::new();
    let n = s.unicode_len();
    let mut i: usize = 0;
    while i < n
        invariant
            n == s@.len(),
            i <= n,
            views(parts@).push(cur@) == split_parts(s@.take(i as int), sep),
        decreases n - i,
    {
        let c = s.get_char(i);
        proof {
            assert(s@.take(i + 1).drop_last() =~= s@.take(i as int));
            assert(s@.take(i + 1).last() == c);
        }
        if c == sep {
            parts.push(cur);
            cur = String::new();
            assert(views(parts@).push(cur@) =~= split_parts(s@.take(i + 1), sep));
        } else {
            let ghost old_cur = cur@;
            push_char(&mut cur, c);
            assert(views(parts@).push(cur@) =~= split_parts(s@.take(i + 1), sep));
        }
        i = i + 1;
    }
    assert(s@.take(n as int) =~= s@);
    parts.push(cur);
    assert(views(parts@) =~= split_parts(s@, sep));
    parts
}

/// Joins `list` with `sep` between neighbouring entries.
pub fn join_strings(list: &Vec<String>, sep: &str) -> (res: String)
    ensures
        res@ == join(views(list@), sep@),
{
    let mut res = String::new();
    let n = list.len();
    let mut i: usize = 0;
    while i < n
        invariant
            n == list@.len(),
            i <= n,
            res@ == join(views(list@).take(i as int), sep@),
        decreases n - i,
    {
        proof {
            assert(views(list@).take(i + 1).drop_last() =~= views(list@).take(i as int));
        }
        if i != 0 {
            res.append(sep);
        } else {
            assert(views(list@).take(0) =~= Seq::<Seq<char>>::empty());
        }
        res.append(list[i].as_str());
        i = i + 1;
    }
    assert(views(list@).take(n as int) =~= views(list@));
    res
}

/// The decimal digit character for `d` (below 10).
pub open spec fn decimal_digit(d: int) -> char {
    (48 + d) as char
}

/// The decimal representation of `n`, without leading zeros.
pub open spec fn decimal_text(n: nat) -> Seq<char>
    decreases n,
{
    if n < 10 {
        seq![decimal_digit(n as int)]
    } else {
        decimal_text(n / 10).push(decimal_digit((n % 10) as int))
    }
}

/// `n.to_string()` for a `u64`. Claimed: its decimal digits without leading
/// zeros, as `Display` for integers writes them.
#[verifier::external_body]
pub(crate) fn u64_decimal(n: u64) -> (res: String)
    ensures
        res@ == decimal_text(n as nat),
{
    n.to_string()
}

} // verus!
