use vstd::prelude::*;

verus! {

/// The names joined into one text, a comma between each two.
pub open spec fn join_with_commas(names: Seq<Seq<char>>) -> Seq<char>
    decreases names.len(),
{
    if names.len() == 0 {
        Seq::empty()
    } else if names.len() == 1 {
        names[0]
    } else {
        join_with_commas(names.drop_last()) + seq![','] + names.last()
    }
}

/// The pieces of a text between its commas, as `str::split(",")` gives
/// them: one piece more than there are commas, empty pieces included.
pub open spec fn split_on_commas(s: Seq<char>) -> Seq<Seq<char>>
    decreases s.len(),
{
    if s.len() == 0 {
        seq![Seq::empty()]
    } else {
        let prev = split_on_commas(s.drop_last());
        if s.last() == ',' {
            prev.push(Seq::empty())
        } else {
            prev.update(prev.len() - 1, prev.last().push(s.last()))
        }
    }
}

proof fn lemma_split_nonempty(s: Seq<char>)
    ensures
        split_on_commas(s).len() >= 1,
    decreases s.len(),
{
    if s.len() > 0 {
        lemma_split_nonempty(s.drop_last());
    }
}

/// Joins names with commas between them, as `[String]::join(",")` does.
pub fn join_with_comma(names: &Vec<String>) -> (r: String)
    ensures
        r@ == join_with_commas(names.deep_view()),
{
    let mut r = String::new();
    let ghost all = names.deep_view();
    let mut i: usize = 0;
    while i < names.len()
        invariant
            i <= names@.len(),
            all == names.deep_view(),
            r@ == join_with_commas(all.take(i as int)),
        decreases names.len() - i,
    {
        proof {
            assert(all.take(i + 1).drop_last() =~= all.take(i as int));
            assert(all.take(i + 1).last() == names@[i as int]@);
        }
        if i != 0 {
            r.append(",");
            proof {
                reveal_strlit(",");
            }
            r.append(names[i].as_str());
        } else {
            r.append(names[i].as_str());
            assert(all.take(1) =~= seq![names@[0]@]);
        }
        i += 1;
    }
    assert(all.take(names@.len() as int) =~= all);
    r
}

/// Splits a text at its commas, as `str::split(",")` does.
pub fn split_on_comma(s: &String) -> (r: Vec<String>)
    ensures
        r.deep_view() == split_on_commas(s@),
{
    let t = s.as_str();
    let n = t.unicode_len();
    let mut r: Vec<String> = Vec::new();
    let mut start: usize = 0;
    let mut i: usize = 0;
    assert(s@.take(0) =~= Seq::<char>::empty());
    assert(r.deep_view() =~= Seq::<Seq<char>>::empty());
    assert(s@.subrange(0, 0) =~= Seq::<char>::empty());
    assert(r.deep_view() + seq![s@.subrange(0, 0)] =~= seq![Seq::<char>::empty()]);
    while i < n
        invariant
            t@ == s@,
            n == s@.len(),
            start <= i <= n,
            r.deep_view() + seq![s@.subrange(start as int, i as int)] == split_on_commas(s@.take(i as int)),
        decreases n - i,
    {
        let c = t.get_char(i);
        proof {
            assert(s@.take(i + 1).drop_last() =~= s@.take(i as int));
            assert(s@.take(i + 1).last() == c);
            lemma_split_nonempty(s@.take(i as int));
        }
        if c == ',' {
            let piece = String::from_str(t.substring_char(start, i));
            let ghost before = r.deep_view();
            r.push(piece);
            assert(r.deep_view() =~= before.push(s@.subrange(start as int, i as int)));
            start = i + 1;
            assert(s@.subrange(start as int, i + 1) =~= Seq::<char>::empty());
        } else {
            assert(s@.subrange(start as int, i + 1) =~= s@.subrange(start as int, i as int).push(c));
        }
        i += 1;
    }
    let piece = String::from_str(t.substring_char(start, n));
    let ghost before = r.deep_view();
    r.push(piece);
    assert(r.deep_view() =~= before.push(s@.subrange(start as int, n as int)));
    assert(s@.take(n as int) =~= s@);
    r
}


/// The text holds no comma.
pub open spec fn comma_free(s: Seq<char>) -> bool {
    forall|k: int| 0 <= k < s.len() ==> s[k] != ','
}

proof fn lemma_split_append_plain(x: Seq<char>, l: Seq<char>)
    requires
        comma_free(l),
    ensures
        split_on_commas(x + l) == split_on_commas(x).update(
            split_on_commas(x).len() - 1,
            split_on_commas(x).last() + l,
        ),
    decreases l.len(),
{
    lemma_split_nonempty(x);
    if l.len() == 0 {
        assert(x + l =~= x);
        assert(split_on_commas(x).last() + l =~= split_on_commas(x).last());
        assert(split_on_commas(x).update(split_on_commas(x).len() - 1, split_on_commas(x).last())
            =~= split_on_commas(x));
    } else {
        let l2 = l.drop_last();
        lemma_split_append_plain(x, l2);
        assert((x + l).drop_last() =~= x + l2);
        assert((x + l).last() == l.last());
        let prev = split_on_commas(x + l2);
        assert(split_on_commas(x + l) == prev.update(prev.len() - 1, prev.last().push(l.last())));
        assert(prev.last() + seq![l.last()] =~= split_on_commas(x).last() + l);
        assert(prev.last().push(l.last()) =~= split_on_commas(x).last() + l);
        assert(split_on_commas(x + l) =~= split_on_commas(x).update(
            split_on_commas(x).len() - 1,
            split_on_commas(x).last() + l,
        ));
    }
}

/// Law: splitting the joined names at their commas gives back the names,
/// for a nonempty list of names none of which holds a comma. A pair's
/// providers as stored and as read back are the same.
pub proof fn lemma_providers_round_trip(names: Seq<Seq<char>>)
    requires
        names.len() >= 1,
        forall|i: int| 0 <= i < names.len() ==> comma_free(#[trigger] names[i]),
    ensures
        split_on_commas(join_with_commas(names)) == names,
    decreases names.len(),
{
    if names.len() == 1 {
        lemma_split_append_plain(Seq::empty(), names[0]);
        assert(Seq::<char>::empty() + names[0] =~= names[0]);
        assert(split_on_commas(Seq::<char>::empty()) =~= seq![Seq::<char>::empty()]);
        assert(Seq::<char>::empty() + names[0] =~= names[0]);
        assert(split_on_commas(names[0]) =~= names);
    } else {
        let init = names.drop_last();
        assert forall|i: int| 0 <= i < init.len() implies comma_free(#[trigger] init[i]) by {
            assert(init[i] == names[i]);
        }
        lemma_providers_round_trip(init);
        let x = join_with_commas(init) + seq![','];
        assert(x.drop_last() =~= join_with_commas(init));
        assert(split_on_commas(x) == split_on_commas(join_with_commas(init)).push(Seq::empty()));
        lemma_split_append_plain(x, names.last());
        assert(join_with_commas(names) == x + names.last());
        lemma_split_nonempty(x);
        assert(Seq::<char>::empty() + names.last() =~= names.last());
        assert(split_on_commas(join_with_commas(names)) =~= names);
    }
}

} // verus!
