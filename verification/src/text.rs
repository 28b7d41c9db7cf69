//! Text handling shared by the mappers: the views of string collections,
//! comparison of texts, and the splitting of a line into fields.

use vstd::prelude::*;
use vstd::std_specs::iter::IteratorSpec;
use vstd::string::StringExecFns;

verus! {

/// The texts held by a sequence of owned strings.
pub open spec fn texts(v: Seq<String>) -> Seq<Seq<char>> {
    v.map_values(|s: String| s@)
}

/// The texts held by a sequence of borrowed strings.
pub open spec fn slices(v: Seq<&str>) -> Seq<Seq<char>> {
    v.map_values(|s: &str| s@)
}

/// The texts held by a sequence of name and value pairs.
pub open spec fn pairs(v: Seq<(String, String)>) -> Seq<(Seq<char>, Seq<char>)> {
    v.map_values(|p: (String, String)| (p.0@, p.1@))
}

/// The fields of `s` under the delimiter `d`, reading left to right: a
/// delimiter closes the current field and opens an empty one, any other
/// character extends the current field. There is always at least one field.
pub open spec fn split_fields(s: Seq<char>, d: char) -> Seq<Seq<char>>
    decreases s.len(),
{
    if s.len() == 0 {
        seq![Seq::empty()]
    } else {
        let before = split_fields(s.drop_last(), d);
        if s.last() == d {
            before.push(Seq::empty())
        } else {
            before.drop_last().push(before.last().push(s.last()))
        }
    }
}

/// The fields put together again, with `d` between neighbours.
pub open spec fn join_fields(fields: Seq<Seq<char>>, d: char) -> Seq<char>
    decreases fields.len(),
{
    if fields.len() == 0 {
        Seq::empty()
    } else if fields.len() == 1 {
        fields[0]
    } else {
        join_fields(fields.drop_last(), d).push(d) + fields.last()
    }
}

/// A copy of a list of strings.
pub fn copy_texts(list: &Vec<String>) -> (copy: Vec<String>)
    ensures
        texts(copy@) == texts(list@),
{
    let mut copy: Vec<String> = Vec::new();
    let mut i: usize = 0;
    while i < list.len()
        invariant
            i <= list.len(),
            texts(copy@) == texts(list@.take(i as int)),
        decreases list.len() - i,
    {
        let ghost before = copy@;
        copy.push(list[i].clone());
        proof {
            assert(list@.take(i + 1) == list@.take(i as int).push(list@[i as int]));
            assert(texts(copy@) == texts(before).push(list@[i as int]@));
        }
        i = i + 1;
    }
    assert(list@.take(list.len() as int) == list@);
    copy
}

/// A copy of a list of name and value pairs.
pub fn copy_pairs(list: &Vec<(String, String)>) -> (copy: Vec<(String, String)>)
    ensures
        pairs(copy@) == pairs(list@),
{
    let mut copy: Vec<(String, String)> = Vec::new();
    let mut i: usize = 0;
    while i < list.len()
        invariant
            i <= list.len(),
            pairs(copy@) == pairs(list@.take(i as int)),
        decreases list.len() - i,
    {
        let ghost before = copy@;
        copy.push((list[i].0.clone(), list[i].1.clone()));
        proof {
            assert(list@.take(i + 1) == list@.take(i as int).push(list@[i as int]));
            assert(pairs(copy@) == pairs(before).push((list@[i as int].0@, list@[i as int].1@)));
        }
        i = i + 1;
    }
    assert(list@.take(list.len() as int) == list@);
    copy
}

/// What is left of `raw` once the white space in front of it and behind it
/// is taken off.
pub uninterp spec fn trimmed(raw: Seq<char>) -> Seq<char>;

/// Takes leading and trailing white space off a text with `str::trim` of the
/// standard library, which goes by the Unicode property `White_Space`.
/// Nothing is proved of it. All that is claimed is that the outcome depends
/// on the text alone, so that it can be named: `trimmed`.
#[verifier::external_body]
pub(crate) fn trim_text(raw: &str) -> (kept: &str)
    ensures
        kept@ == trimmed(raw@),
{
    raw.trim()
}

/// The names, with a comma between neighbours.
pub fn comma_list(names: &Vec<String>) -> (list: String)
    ensures
        list@ == join_fields(texts(names@), ','),
{
    let mut list = String::new();
    let mut k: usize = 0;
    proof {
        reveal_strlit(",");
        assert(texts(names@).take(0) == Seq::<Seq<char>>::empty());
    }
    while k < names.len()
        invariant
            k <= names.len(),
            ","@ == seq![','],
            list@ == join_fields(texts(names@).take(k as int), ','),
        decreases names.len() - k,
    {
        proof {
            let grown = texts(names@).take(k + 1);
            assert(grown.drop_last() == texts(names@).take(k as int));
            assert(grown.last() == names@[k as int]@);
        }
        if k > 0 {
            let ghost before = list@;
            list.append(",");
            assert(list@ == before.push(','));
        }
        list.append(names[k].as_str());
        k = k + 1;
    }
    assert(texts(names@).take(k as int) == texts(names@));
    list
}

/// Whether two texts are the same, character for character.
pub fn same_text(a: &str, b: &str) -> (r: bool)
    ensures
        r == (a@ == b@),
{
    let n = a.unicode_len();
    if b.unicode_len() != n {
        return false;
    }
    let mut left = a.chars();
    let mut right = b.chars();
    let mut i: usize = 0;
    while i < n
        invariant
            i <= n,
            n == a@.len(),
            n == b@.len(),
            left.obeys_prophetic_iter_laws(),
            right.obeys_prophetic_iter_laws(),
            left.remaining() == a@.skip(i as int),
            right.remaining() == b@.skip(i as int),
            a@.take(i as int) == b@.take(i as int),
        decreases n - i,
    {
        let x = left.next();
        let y = right.next();
        if x != y {
            assert(a@[i as int] != b@[i as int]);
            return false;
        }
        assert(a@.skip(i as int).drop_first() == a@.skip(i + 1));
        assert(b@.skip(i as int).drop_first() == b@.skip(i + 1));
        assert(a@.take(i + 1) == a@.take(i as int).push(a@[i as int]));
        assert(b@.take(i + 1) == b@.take(i as int).push(b@[i as int]));
        i = i + 1;
    }
    assert(a@.take(n as int) == a@);
    assert(b@.take(n as int) == b@);
    true
}

/// Splits a line at every occurrence of the delimiter.
pub fn split_line(line: &str, delimiter: char) -> (fields: Vec<String>)
    ensures
        texts(fields@) == split_fields(line@, delimiter),
{
    let n = line.unicode_len();
    let mut fields: Vec<String> = Vec::new();
    let mut start: usize = 0;
    let mut i: usize = 0;
    let mut chars = line.chars();
    assert(line@.take(0) == Seq::<char>::empty());
    assert(line@.subrange(0, 0) == Seq::<char>::empty());
    assert(texts(fields@).push(line@.subrange(0, 0)) == split_fields(line@.take(0), delimiter));
    while i < n
        invariant
            start <= i <= n,
            n == line@.len(),
            chars.obeys_prophetic_iter_laws(),
            chars.remaining() == line@.skip(i as int),
            split_fields(line@.take(i as int), delimiter) == texts(fields@).push(
                line@.subrange(start as int, i as int),
            ),
        decreases n - i,
    {
        let next = chars.next();
        let c = next.unwrap();
        proof {
            let prefix = line@.take(i + 1);
            assert(prefix.drop_last() == line@.take(i as int));
            assert(prefix.last() == c);
            assert(line@.skip(i as int).drop_first() == line@.skip(i + 1));
            assert(line@.subrange(start as int, i + 1) == line@.subrange(
                start as int,
                i as int,
            ).push(c));
            assert(texts(fields@).push(line@.subrange(start as int, i as int)).drop_last()
                == texts(fields@));
        }
        if c == delimiter {
            let field = line.substring_char(start, i).to_owned();
            let ghost before = fields@;
            fields.push(field);
            start = i + 1;
            proof {
                assert(texts(fields@) == texts(before).push(field@));
                assert(line@.subrange(start as int, i + 1) == Seq::<char>::empty());
            }
        }
        i = i + 1;
    }
    let field = line.substring_char(start, n).to_owned();
    let ghost before = fields@;
    fields.push(field);
    proof {
        assert(line@.take(n as int) == line@);
        assert(texts(fields@) == texts(before).push(field@));
    }
    fields
}

/// A split yields at least one field, and no field holds the delimiter.
pub proof fn lemma_split_fields_plain(s: Seq<char>, d: char)
    ensures
        split_fields(s, d).len() >= 1,
        forall|k: int|
            0 <= k < split_fields(s, d).len() ==> !(#[trigger] split_fields(s, d)[k]).contains(d),
    decreases s.len(),
{
    let fields = split_fields(s, d);
    if s.len() > 0 {
        lemma_split_fields_plain(s.drop_last(), d);
        let before = split_fields(s.drop_last(), d);
        if s.last() != d {
            let grown = before.last().push(s.last());
            assert forall|k: int| 0 <= k < fields.len() implies !(#[trigger] fields[k]).contains(
                d,
            ) by {
                if k == before.len() - 1 && grown.contains(d) {
                    let j = choose|j: int| 0 <= j < grown.len() && grown[j] == d;
                    assert(before.last()[j] == d);
                    assert(before[before.len() - 1].contains(d));
                }
            }
        }
    }
}

/// Joining what a split gave restores the line.
pub proof fn lemma_join_of_split(s: Seq<char>, d: char)
    ensures
        join_fields(split_fields(s, d), d) == s,
    decreases s.len(),
{
    if s.len() > 0 {
        let rest = s.drop_last();
        let before = split_fields(rest, d);
        lemma_join_of_split(rest, d);
        lemma_split_fields_plain(rest, d);
        if s.last() == d {
            assert(before.push(Seq::empty()).drop_last() == before);
            assert(join_fields(before, d).push(d) + Seq::<char>::empty() == s);
        } else {
            let c = s.last();
            let after = before.drop_last().push(before.last().push(c));
            assert(after.drop_last() == before.drop_last());
            if before.len() > 1 {
                let glue = join_fields(before.drop_last(), d).push(d);
                assert(glue + before.last().push(c) == (glue + before.last()).push(c));
            }
            assert(rest.push(c) == s);
        }
    }
}

/// Splitting what a join gave restores the fields, provided that there is at
/// least one field and that none of them holds the delimiter. Together with
/// `lemma_join_of_split` and `lemma_split_fields_plain` this makes the split
/// of a line the only way to cut it into delimiter-free fields.
pub proof fn lemma_split_of_join(fields: Seq<Seq<char>>, d: char)
    requires
        fields.len() >= 1,
        forall|k: int| 0 <= k < fields.len() ==> !(#[trigger] fields[k]).contains(d),
    ensures
        split_fields(join_fields(fields, d), d) == fields,
    decreases fields.len(), fields.last().len(),
{
    let line = join_fields(fields, d);
    let tail = fields.last();
    if tail.len() == 0 {
        if fields.len() > 1 {
            let glue = join_fields(fields.drop_last(), d).push(d);
            assert(glue + tail == glue);
            assert(line.drop_last() == join_fields(fields.drop_last(), d));
            lemma_split_of_join(fields.drop_last(), d);
            assert(tail == Seq::<char>::empty());
            assert(fields.drop_last().push(Seq::empty()) == fields);
        } else {
            assert(fields[0] == Seq::<char>::empty());
            assert(fields == seq![Seq::<char>::empty()]);
        }
    } else {
        let c = tail.last();
        let shorter = fields.drop_last().push(tail.drop_last());
        assert(tail.contains(c));
        assert(fields[fields.len() - 1].contains(c));
        assert(shorter.drop_last() == fields.drop_last());
        assert forall|k: int| 0 <= k < shorter.len() implies !(#[trigger] shorter[k]).contains(
            d,
        ) by {
            if k == shorter.len() - 1 && shorter[k].contains(d) {
                let j = choose|j: int| 0 <= j < shorter[k].len() && shorter[k][j] == d;
                assert(tail[j] == d);
                assert(fields[fields.len() - 1].contains(d));
            } else if k < shorter.len() - 1 {
                assert(shorter[k] == fields[k]);
            }
        }
        if fields.len() > 1 {
            let glue = join_fields(fields.drop_last(), d).push(d);
            assert(glue + tail == (glue + tail.drop_last()).push(c));
        } else {
            assert(tail.drop_last().push(c) == tail);
        }
        assert(line.drop_last() == join_fields(shorter, d));
        assert(line.last() == c);
        lemma_split_of_join(shorter, d);
        assert(shorter.last().push(c) == tail);
        assert(shorter.drop_last().push(shorter.last().push(c)) == fields);
    }
}

} // verus!
