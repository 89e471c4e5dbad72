//! Texts whose fields are set apart by a separator character: how a text
//! falls into fields, and how fields are put together again.

use vstd::prelude::*;
use vstd::std_specs::iter::IteratorSpec;

verus! {

/// No character of `s` is the separator.
pub open spec fn separator_free(s: Seq<char>, sep: char) -> bool {
    forall|i: int| 0 <= i < s.len() ==> #[trigger] s[i] != sep
}

/// The fields of `s`: the stretches between its separators, in order. A
/// text without a separator is one field; an empty text is one empty field.
pub open spec fn split_fields(s: Seq<char>, sep: char) -> Seq<Seq<char>>
    decreases s.len(),
{
    if s.len() == 0 {
        seq![Seq::<char>::empty()]
    } else if s.last() == sep {
        split_fields(s.drop_last(), sep).push(Seq::<char>::empty())
    } else {
        let before = split_fields(s.drop_last(), sep);
        before.drop_last().push(before.last().push(s.last()))
    }
}

/// The fields put together with one separator between neighbours.
pub open spec fn join_fields(fields: Seq<Seq<char>>, sep: char) -> Seq<char>
    decreases fields.len(),
{
    if fields.len() == 0 {
        Seq::<char>::empty()
    } else if fields.len() == 1 {
        fields[0]
    } else {
        join_fields(fields.drop_last(), sep) + seq![sep] + fields.last()
    }
}

/// Every text has at least one field, and no field holds a separator.
pub proof fn lemma_split_fields_shape(s: Seq<char>, sep: char)
    ensures
        split_fields(s, sep).len() >= 1,
        forall|k: int|
            0 <= k < split_fields(s, sep).len() ==> separator_free(
                #[trigger] split_fields(s, sep)[k],
                sep,
            ),
    decreases s.len(),
{
    if s.len() > 0 {
        lemma_split_fields_shape(s.drop_last(), sep);
        let before = split_fields(s.drop_last(), sep);
        let all = split_fields(s, sep);
        assert forall|k: int| 0 <= k < all.len() implies separator_free(#[trigger] all[k], sep) by {
            if s.last() == sep {
                if k < before.len() {
                    assert(all[k] == before[k]);
                }
            } else {
                if k < before.len() - 1 {
                    assert(all[k] == before[k]);
                } else {
                    assert(separator_free(before.last(), sep));
                    assert forall|i: int| 0 <= i < all[k].len() implies #[trigger] all[k][i]
                        != sep by {
                        if i < before.last().len() {
                            assert(all[k][i] == before.last()[i]);
                        }
                    }
                }
            }
        }
    }
}

/// A longer text has at least as many fields as any of its prefixes.
pub proof fn lemma_split_fields_prefix(s: Seq<char>, sep: char, k: int)
    requires
        0 <= k <= s.len(),
    ensures
        split_fields(s.take(k), sep).len() <= split_fields(s, sep).len(),
    decreases s.len(),
{
    if k == s.len() {
        assert(s.take(k) =~= s);
    } else {
        assert(s.drop_last().take(k) =~= s.take(k));
        lemma_split_fields_prefix(s.drop_last(), sep, k);
        lemma_split_fields_shape(s.drop_last(), sep);
    }
}

/// Splitting a text and joining its fields gives the text back.
pub proof fn lemma_join_split(s: Seq<char>, sep: char)
    ensures
        join_fields(split_fields(s, sep), sep) == s,
    decreases s.len(),
{
    if s.len() == 0 {
        assert(join_fields(split_fields(s, sep), sep) =~= s);
    } else {
        let t = s.drop_last();
        let c = s.last();
        let before = split_fields(t, sep);
        lemma_join_split(t, sep);
        lemma_split_fields_shape(t, sep);
        assert(t.push(c) =~= s);
        if c == sep {
            let all = before.push(Seq::<char>::empty());
            assert(all.drop_last() =~= before);
            assert(join_fields(all, sep) =~= t.push(c));
        } else {
            let all = before.drop_last().push(before.last().push(c));
            if before.len() == 1 {
                assert(all[0] == before[0].push(c));
                assert(join_fields(before, sep) == before[0]);
            } else {
                assert(all.drop_last() =~= before.drop_last());
                assert(join_fields(all, sep) =~= join_fields(before, sep).push(c));
            }
        }
    }
}

/// Appending a separator-free stretch to a text extends its last field.
pub proof fn lemma_split_extend(s: Seq<char>, f: Seq<char>, sep: char)
    requires
        separator_free(f, sep),
    ensures
        split_fields(s + f, sep) == split_fields(s, sep).drop_last().push(
            split_fields(s, sep).last() + f,
        ),
    decreases f.len(),
{
    lemma_split_fields_shape(s, sep);
    let base = split_fields(s, sep);
    if f.len() == 0 {
        assert(s + f =~= s);
        assert(base.last() + f =~= base.last());
        assert(base.drop_last().push(base.last()) =~= base);
    } else {
        let g = f.drop_last();
        let c = f.last();
        assert(f[f.len() - 1] != sep);
        assert forall|i: int| 0 <= i < g.len() implies #[trigger] g[i] != sep by {
            assert(g[i] == f[i]);
        }
        lemma_split_extend(s, g, sep);
        assert((s + f).drop_last() =~= s + g);
        assert((s + f).last() == c);
        let before = split_fields(s + g, sep);
        assert(before.last() == base.last() + g);
        assert(before.drop_last() =~= base.drop_last());
        assert((base.last() + g).push(c) =~= base.last() + f);
    }
}

/// Joining separator-free fields and splitting the text gives the fields
/// back.
pub proof fn lemma_split_join(fields: Seq<Seq<char>>, sep: char)
    requires
        fields.len() >= 1,
        forall|k: int| 0 <= k < fields.len() ==> separator_free(#[trigger] fields[k], sep),
    ensures
        split_fields(join_fields(fields, sep), sep) == fields,
    decreases fields.len(),
{
    let empty = Seq::<char>::empty();
    if fields.len() == 1 {
        lemma_split_extend(empty, fields[0], sep);
        assert(empty + fields[0] =~= fields[0]);
        assert(split_fields(empty, sep) =~= seq![empty]);
        assert(split_fields(fields[0], sep) =~= fields);
    } else {
        let init = fields.drop_last();
        let f = fields.last();
        assert forall|k: int| 0 <= k < init.len() implies separator_free(
            #[trigger] init[k],
            sep,
        ) by {
            assert(init[k] == fields[k]);
        }
        lemma_split_join(init, sep);
        let head = join_fields(init, sep) + seq![sep];
        assert(head.drop_last() =~= join_fields(init, sep));
        assert(head.last() == sep);
        assert(split_fields(head, sep) == init.push(empty));
        lemma_split_extend(head, f, sep);
        assert(init.push(empty).drop_last() =~= init);
        assert(empty + f =~= f);
        assert(init.push(f) =~= fields);
    }
}

/// Joining one field more appends a separator and the field.
pub proof fn lemma_join_take(fields: Seq<Seq<char>>, sep: char, k: int)
    requires
        0 <= k < fields.len(),
    ensures
        join_fields(fields.take(k + 1), sep) == if k == 0 {
            fields[0]
        } else {
            join_fields(fields.take(k), sep) + seq![sep] + fields[k]
        },
{
    let head = fields.take(k + 1);
    assert(head.last() == fields[k]);
    assert(head.drop_last() =~= fields.take(k));
}

/// The characters of `s`, in order.
pub fn to_chars(s: &str) -> (v: Vec<char>)
    ensures
        v@ == s@,
{
    let mut v: Vec<char> = Vec::new();
    for c in it: s.chars()
        invariant
            v@ == it.seq().take(it.index() as int),
            it.seq() == s@,
    {
        v.push(c);
    }
    v
}

/// Where the fields of the text `chars[start..end]` begin and end, unless
/// there are more than `limit` of them. Field `k` is `chars[b.0..b.1]` for
/// the `k`-th pair `b`.
pub fn split_bounds(chars: &Vec<char>, start: usize, end: usize, sep: char, limit: usize) -> (r:
    Option<Vec<(usize, usize)>>)
    requires
        start <= end <= chars@.len(),
    ensures
        match r {
            Some(bounds) => {
                &&& bounds@.len() == split_fields(
                    chars@.subrange(start as int, end as int),
                    sep,
                ).len()
                &&& bounds@.len() <= limit
                &&& forall|k: int|
                    0 <= k < bounds@.len() ==> {
                        &&& start <= (#[trigger] bounds@[k]).0 <= bounds@[k].1 <= end
                        &&& split_fields(chars@.subrange(start as int, end as int), sep)[k]
                            == chars@.subrange(bounds@[k].0 as int, bounds@[k].1 as int)
                    }
            },
            None => split_fields(chars@.subrange(start as int, end as int), sep).len() > limit,
        },
{
    let ghost s = chars@.subrange(start as int, end as int);
    proof {
        lemma_split_fields_shape(s, sep);
    }
    if limit == 0 {
        return None;
    }
    let mut bounds: Vec<(usize, usize)> = Vec::new();
    let mut from: usize = start;
    let mut i: usize = start;
    proof {
        assert(s.take(0) =~= Seq::<char>::empty());
        assert(chars@.subrange(start as int, start as int) =~= Seq::<char>::empty());
    }
    while i < end
        invariant
            s == chars@.subrange(start as int, end as int),
            start <= from <= i <= end <= chars@.len(),
            bounds@.len() < limit,
            split_fields(s.take(i - start), sep).len() == bounds@.len() + 1,
            split_fields(s.take(i - start), sep).last() == chars@.subrange(from as int, i as int),
            forall|k: int|
                0 <= k < bounds@.len() ==> {
                    &&& start <= (#[trigger] bounds@[k]).0 <= bounds@[k].1 <= i
                    &&& split_fields(s.take(i - start), sep)[k] == chars@.subrange(
                        bounds@[k].0 as int,
                        bounds@[k].1 as int,
                    )
                },
        decreases end - i,
    {
        let c = chars[i];
        let ghost before = split_fields(s.take(i - start), sep);
        let ghost after = split_fields(s.take(i - start + 1), sep);
        proof {
            assert(s.take(i - start + 1).drop_last() =~= s.take(i - start));
            assert(s.take(i - start + 1).last() == c);
        }
        if c == sep {
            proof {
                assert(after == before.push(Seq::<char>::empty()));
            }
            if bounds.len() + 1 >= limit {
                proof {
                    lemma_split_fields_prefix(s, sep, i - start + 1);
                }
                return None;
            }
            bounds.push((from, i));
            from = i + 1;
            proof {
                assert(chars@.subrange(from as int, i + 1) =~= Seq::<char>::empty());
                assert forall|k: int| 0 <= k < bounds@.len() implies {
                    &&& start <= (#[trigger] bounds@[k]).0 <= bounds@[k].1 <= i + 1
                    &&& after[k] == chars@.subrange(bounds@[k].0 as int, bounds@[k].1 as int)
                } by {
                    assert(after[k] == before[k]);
                }
            }
        } else {
            proof {
                assert(after == before.drop_last().push(before.last().push(c)));
                assert(chars@.subrange(from as int, i as int).push(c) =~= chars@.subrange(
                    from as int,
                    i + 1,
                ));
                assert forall|k: int| 0 <= k < bounds@.len() implies {
                    &&& start <= (#[trigger] bounds@[k]).0 <= bounds@[k].1 <= i + 1
                    &&& after[k] == chars@.subrange(bounds@[k].0 as int, bounds@[k].1 as int)
                } by {
                    assert(after[k] == before[k]);
                }
            }
        }
        i = i + 1;
    }
    proof {
        assert(s.take(end - start) =~= s);
    }
    bounds.push((from, end));
    Some(bounds)
}

} // verus!
