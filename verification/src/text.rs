//! Splitting of character sequences: the stem of a file name and its
//! separator-delimited fields, as mathematical functions on `Seq<char>`,
//! together with executable functions on `&str` proved to compute them.

use vstd::prelude::*;
use vstd::string::*;

verus! {

/// The views of a vector of strings, in order.
pub open spec fn views(v: Seq<String>) -> Seq<Seq<char>> {
    Seq::new(v.len(), |i: int| v[i]@)
}

/// `sep` stands in `s` at position `i`.
pub open spec fn occurs_at(s: Seq<char>, sep: Seq<char>, i: int) -> bool {
    &&& 0 <= i
    &&& i + sep.len() <= s.len()
    &&& forall|k: int| 0 <= k < sep.len() ==> s[i + k] == sep[k]
}

/// `i` is the leftmost position at which `sep` stands in `s`.
pub open spec fn is_first_occurrence(s: Seq<char>, sep: Seq<char>, i: int) -> bool {
    &&& occurs_at(s, sep, i)
    &&& forall|j: int| 0 <= j < i ==> !occurs_at(s, sep, j)
}

/// The leftmost position at which `sep` stands in `s`, if it stands anywhere.
pub open spec fn first_occurrence(s: Seq<char>, sep: Seq<char>) -> Option<int> {
    if exists|i: int| is_first_occurrence(s, sep, i) {
        Some(choose|i: int| is_first_occurrence(s, sep, i))
    } else {
        None
    }
}

/// The fields of `s` between occurrences of a non-empty `sep`, taken
/// leftmost first and without overlap.
pub open spec fn split_nonempty(s: Seq<char>, sep: Seq<char>) -> Seq<Seq<char>>
    decreases s.len(),
{
    match first_occurrence(s, sep) {
        Some(i) => if sep.len() > 0 && 0 <= i && i + sep.len() <= s.len() {
            seq![s.take(i)] + split_nonempty(s.skip(i + sep.len()), sep)
        } else {
            seq![s]
        },
        None => seq![s],
    }
}

/// The fields of `s` when it is split on `sep`.
///
/// An empty separator stands before and after every character, so it yields
/// an empty field, then one field per character, then an empty field.
pub open spec fn split(s: Seq<char>, sep: Seq<char>) -> Seq<Seq<char>> {
    if sep.len() == 0 {
        seq![Seq::<char>::empty()] + Seq::new(s.len(), |i: int| seq![s[i]]) + seq![
            Seq::<char>::empty(),
        ]
    } else {
        split_nonempty(s, sep)
    }
}

/// The fields joined again, with `sep` between neighbours.
pub open spec fn join(fields: Seq<Seq<char>>, sep: Seq<char>) -> Seq<char>
    decreases fields.len(),
{
    if fields.len() == 0 {
        Seq::<char>::empty()
    } else if fields.len() == 1 {
        fields[0]
    } else {
        fields[0] + sep + join(fields.skip(1), sep)
    }
}

/// The position of the last `.` in `s`, or -1 where `s` holds none.
pub open spec fn last_dot(s: Seq<char>) -> int
    decreases s.len(),
{
    if s.len() == 0 {
        -1
    } else if s.last() == '.' {
        s.len() - 1
    } else {
        last_dot(s.drop_last())
    }
}

/// `s` has an extension: it holds a `.`.
pub open spec fn has_extension(s: Seq<char>) -> bool {
    last_dot(s) >= 0
}

/// What stands before the last `.` of `s`.
pub open spec fn stem(s: Seq<char>) -> Seq<char>
    recommends
        has_extension(s),
{
    s.take(last_dot(s))
}

/// What stands after the last `.` of `s`.
pub open spec fn extension(s: Seq<char>) -> Seq<char>
    recommends
        has_extension(s),
{
    s.skip(last_dot(s) + 1)
}

/// `last_dot` is the greatest position that holds a `.`.
pub proof fn lemma_last_dot(s: Seq<char>)
    ensures
        -1 <= last_dot(s) < s.len(),
        last_dot(s) >= 0 ==> s[last_dot(s)] == '.',
        forall|j: int| last_dot(s) < j < s.len() ==> s[j] != '.',
    decreases s.len(),
{
    if s.len() > 0 && s.last() != '.' {
        let t = s.drop_last();
        lemma_last_dot(t);
        assert forall|j: int| last_dot(s) < j < s.len() implies s[j] != '.' by {
            if j < t.len() {
                assert(t[j] == s[j]);
            }
        }
    }
}

/// A first occurrence is the only one: `first_occurrence` names it.
pub proof fn lemma_first_occurrence_is(s: Seq<char>, sep: Seq<char>, i: int)
    requires
        is_first_occurrence(s, sep, i),
    ensures
        first_occurrence(s, sep) == Some(i),
{
    let c = choose|c: int| is_first_occurrence(s, sep, c);
    if c < i {
        assert(!occurs_at(s, sep, c));
    } else if i < c {
        assert(!occurs_at(s, sep, i));
    }
}

/// Where `sep` stands nowhere in `s`, there is no first occurrence.
pub proof fn lemma_first_occurrence_none(s: Seq<char>, sep: Seq<char>)
    requires
        forall|j: int| 0 <= j ==> !occurs_at(s, sep, j),
    ensures
        first_occurrence(s, sep) is None,
{
    assert forall|i: int| !is_first_occurrence(s, sep, i) by {
        if 0 <= i {
            assert(!occurs_at(s, sep, i));
        }
    }
}

/// Where `sep` stands at all, it has a first occurrence, at or before any
/// other.
pub proof fn lemma_occurrence_has_first(s: Seq<char>, sep: Seq<char>, j: int)
    requires
        occurs_at(s, sep, j),
    ensures
        first_occurrence(s, sep) is Some,
        is_first_occurrence(s, sep, first_occurrence(s, sep)->0),
        first_occurrence(s, sep)->0 <= j,
    decreases j,
{
    if exists|i: int| 0 <= i < j && occurs_at(s, sep, i) {
        let i = choose|i: int| 0 <= i < j && occurs_at(s, sep, i);
        lemma_occurrence_has_first(s, sep, i);
    } else {
        assert(is_first_occurrence(s, sep, j));
        lemma_first_occurrence_is(s, sep, j);
    }
}

/// No field of a split on a non-empty separator holds the separator.
pub proof fn lemma_fields_hold_no_separator(s: Seq<char>, sep: Seq<char>, k: int, j: int)
    requires
        sep.len() > 0,
        0 <= k < split(s, sep).len(),
    ensures
        !occurs_at(split(s, sep)[k], sep, j),
    decreases s.len(),
{
    if occurs_at(split(s, sep)[k], sep, j) {
        match first_occurrence(s, sep) {
            Some(i) => {
                assert(is_first_occurrence(s, sep, i));
                let rest = s.skip(i + sep.len());
                if k == 0 {
                    let field = s.take(i);
                    assert forall|n: int| 0 <= n < sep.len() implies s[j + n] == sep[n] by {
                        assert(field[j + n] == s[j + n]);
                    }
                    assert(occurs_at(s, sep, j));
                } else {
                    assert(split(s, sep)[k] == split(rest, sep)[k - 1]);
                    lemma_fields_hold_no_separator(rest, sep, k - 1, j);
                }
            },
            None => {
                lemma_occurrence_has_first(s, sep, j);
            },
        }
    }
}

/// Joining one field in front: the field, the separator, the rest joined.
pub proof fn lemma_join_cons(first: Seq<char>, rest: Seq<Seq<char>>, sep: Seq<char>)
    requires
        rest.len() > 0,
    ensures
        join(seq![first] + rest, sep) == first + sep + join(rest, sep),
{
    assert((seq![first] + rest).skip(1) =~= rest);
}

/// A split always yields at least one field.
pub proof fn lemma_split_has_a_field(s: Seq<char>, sep: Seq<char>)
    ensures
        split(s, sep).len() >= 1,
{
}

/// Splitting and joining again gives the sequence back, whatever the
/// separator.
pub proof fn lemma_join_split(s: Seq<char>, sep: Seq<char>)
    ensures
        join(split(s, sep), sep) == s,
    decreases s.len(),
{
    if sep.len() == 0 {
        lemma_join_single_characters(s);
        let tail = Seq::new(s.len(), |i: int| seq![s[i]]) + seq![Seq::<char>::empty()];
        assert(split(s, sep) =~= seq![Seq::<char>::empty()] + tail);
        lemma_join_cons(Seq::<char>::empty(), tail, sep);
        assert(Seq::<char>::empty() + sep + s =~= s);
        assert(sep =~= Seq::<char>::empty());
    } else {
        match first_occurrence(s, sep) {
            Some(i) => {
                if 0 <= i && i + sep.len() <= s.len() {
                    let rest = s.skip(i + sep.len());
                    lemma_join_split(rest, sep);
                    lemma_split_has_a_field(rest, sep);
                    lemma_join_cons(s.take(i), split_nonempty(rest, sep), sep);
                    assert(is_first_occurrence(s, sep, i));
                    assert(s.subrange(i, i + sep.len()) =~= sep);
                    assert(s.take(i) + sep + rest =~= s);
                }
            },
            None => {},
        }
    }
}

/// One field per character and an empty one, joined on nothing, give the
/// characters back.
pub proof fn lemma_join_single_characters(s: Seq<char>)
    ensures
        join(
            Seq::new(s.len(), |i: int| seq![s[i]]) + seq![Seq::<char>::empty()],
            Seq::<char>::empty(),
        ) == s,
    decreases s.len(),
{
    let nothing = Seq::<char>::empty();
    let fields = Seq::new(s.len(), |i: int| seq![s[i]]) + seq![nothing];
    if s.len() == 0 {
        assert(fields[0] =~= s);
    } else {
        let t = s.skip(1);
        let rest = Seq::new(t.len(), |i: int| seq![t[i]]) + seq![nothing];
        lemma_join_single_characters(t);
        assert(fields =~= seq![seq![s[0]]] + rest);
        lemma_join_cons(seq![s[0]], rest, nothing);
        assert(seq![s[0]] + nothing + t =~= s);
    }
}

/// A name with an extension is its stem, a `.`, and its extension; so the
/// fields of the stem, joined on the separator and followed by `.` and the
/// extension, spell the name.
pub proof fn lemma_name_from_fields(name: Seq<char>, sep: Seq<char>)
    requires
        has_extension(name),
    ensures
        join(split(stem(name), sep), sep) + seq!['.'] + extension(name) == name,
{
    lemma_last_dot(name);
    lemma_join_split(stem(name), sep);
    assert(stem(name) + seq!['.'] + extension(name) =~= name);
}

/// One step of `split_nonempty`: at the first occurrence of `sep`.
pub proof fn lemma_split_at_first(s: Seq<char>, sep: Seq<char>, i: int)
    requires
        sep.len() > 0,
        is_first_occurrence(s, sep, i),
    ensures
        split_nonempty(s, sep) == seq![s.take(i)] + split_nonempty(s.skip(i + sep.len()), sep),
{
    lemma_first_occurrence_is(s, sep, i);
}

/// The end of `split_nonempty`: `sep` stands nowhere in `s`.
pub proof fn lemma_split_without_separator(s: Seq<char>, sep: Seq<char>)
    requires
        forall|j: int| 0 <= j ==> !occurs_at(s, sep, j),
    ensures
        split_nonempty(s, sep) == seq![s],
{
    lemma_first_occurrence_none(s, sep);
}

/// An occurrence in what follows position `start` is one in the whole.
pub proof fn lemma_occurs_at_skip(s: Seq<char>, sep: Seq<char>, start: int, j: int)
    requires
        0 <= start <= s.len(),
        0 <= j,
    ensures
        occurs_at(s.skip(start), sep, j) == occurs_at(s, sep, start + j),
{
    let t = s.skip(start);
    if occurs_at(s, sep, start + j) {
        assert forall|k: int| 0 <= k < sep.len() implies t[j + k] == sep[k] by {
            assert(t[j + k] == s[start + j + k]);
        }
    }
    if occurs_at(t, sep, j) {
        assert forall|k: int| 0 <= k < sep.len() implies s[start + j + k] == sep[k] by {
            assert(t[j + k] == s[start + j + k]);
        }
    }
}

/// The characters of `s`, one by one.
pub fn chars_of(s: &str) -> (v: Vec<char>)
    ensures
        v@ == s@,
{
    let n: usize = s.unicode_len();
    let mut v: Vec<char> = Vec::new();
    let mut i: usize = 0;
    while i < n
        invariant
            n == s@.len(),
            i <= n,
            v@ == s@.take(i as int),
        decreases n - i,
    {
        let c: char = s.get_char(i);
        v.push(c);
        i = i + 1;
        assert(v@ =~= s@.take(i as int));
    }
    assert(s@.take(n as int) =~= s@);
    v
}

/// The position of the last `.` of `s`, if it holds one.
pub fn find_last_dot(s: &Vec<char>) -> (r: Option<usize>)
    ensures
        match r {
            Some(d) => last_dot(s@) == d && d < s.len(),
            None => last_dot(s@) == -1,
        },
{
    let mut i: usize = s.len();
    while i > 0
        invariant
            i <= s.len(),
            forall|j: int| i <= j < s.len() ==> s@[j] != '.',
        decreases i,
    {
        i = i - 1;
        if s[i] == '.' {
            proof {
                lemma_last_dot(s@);
            }
            return Some(i);
        }
    }
    proof {
        lemma_last_dot(s@);
    }
    None
}

/// Whether `sep` stands in `s` at position `i`.
pub fn occurs_at_position(s: &Vec<char>, sep: &Vec<char>, i: usize) -> (r: bool)
    ensures
        r == occurs_at(s@, sep@, i as int),
{
    if sep.len() > s.len() || i > s.len() - sep.len() {
        return false;
    }
    let mut k: usize = 0;
    while k < sep.len()
        invariant
            k <= sep.len(),
            i + sep.len() <= s.len(),
            forall|j: int| 0 <= j < k ==> s@[i + j] == sep@[j],
        decreases sep.len() - k,
    {
        if s[i + k] != sep[k] {
            return false;
        }
        k = k + 1;
    }
    true
}

/// Splits `s` on `sep` into its fields.
pub fn split_fields(s: &str, sep: &str) -> (fields: Vec<String>)
    ensures
        views(fields@) == split(s@, sep@),
{
    let sc: Vec<char> = chars_of(s);
    let pc: Vec<char> = chars_of(sep);
    let n: usize = sc.len();
    let m: usize = pc.len();
    let mut fields: Vec<String> = Vec::new();
    if m == 0 {
        fields.push(String::new());
        let mut i: usize = 0;
        while i < n
            invariant
                n == s@.len(),
                i <= n,
                views(fields@) == seq![Seq::<char>::empty()] + Seq::new(
                    i as nat,
                    |k: int| seq![s@[k]],
                ),
            decreases n - i,
        {
            let ghost before = fields@;
            let f: String = String::from_str(s.substring_char(i, i + 1));
            fields.push(f);
            proof {
                assert(f@ =~= seq![s@[i as int]]);
                assert(views(fields@) =~= views(before).push(f@));
                assert(views(fields@) =~= seq![Seq::<char>::empty()] + Seq::new(
                    (i + 1) as nat,
                    |k: int| seq![s@[k]],
                ));
            }
            i = i + 1;
        }
        let ghost before = fields@;
        fields.push(String::new());
        proof {
            assert(views(fields@) =~= views(before).push(Seq::<char>::empty()));
            assert(views(fields@) =~= split(s@, sep@));
        }
        return fields;
    }
    let mut start: usize = 0;
    let mut i: usize = 0;
    proof {
        assert(s@.skip(0) =~= s@);
        assert(views(fields@) + split_nonempty(s@, sep@) =~= split_nonempty(s@, sep@));
    }
    while m <= n && i <= n - m
        invariant
            sc@ == s@,
            pc@ == sep@,
            n == s@.len(),
            m == sep@.len(),
            m > 0,
            start <= i <= n,
            split_nonempty(s@, sep@) == views(fields@) + split_nonempty(
                s@.skip(start as int),
                sep@,
            ),
            forall|j: int| start <= j < i ==> !occurs_at(s@, sep@, j),
        decreases n - i,
    {
        if occurs_at_position(&sc, &pc, i) {
            let ghost before = fields@;
            let ghost rest = s@.skip(start as int);
            let f: String = String::from_str(s.substring_char(start, i));
            fields.push(f);
            proof {
                assert forall|j: int| 0 <= j < i - start implies !occurs_at(rest, sep@, j) by {
                    lemma_occurs_at_skip(s@, sep@, start as int, j);
                }
                lemma_occurs_at_skip(s@, sep@, start as int, i - start);
                lemma_split_at_first(rest, sep@, i - start);
                assert(rest.take(i - start) =~= f@);
                assert(rest.skip(i - start + m) =~= s@.skip(i + m));
                assert(views(fields@) =~= views(before).push(f@));
                assert(views(before) + (seq![f@] + split_nonempty(s@.skip(i + m), sep@))
                    =~= views(fields@) + split_nonempty(s@.skip(i + m), sep@));
            }
            i = i + m;
            start = i;
        } else {
            i = i + 1;
        }
    }
    let ghost before = fields@;
    let ghost rest = s@.skip(start as int);
    let f: String = String::from_str(s.substring_char(start, n));
    fields.push(f);
    proof {
        assert forall|j: int| 0 <= j implies !occurs_at(rest, sep@, j) by {
            lemma_occurs_at_skip(s@, sep@, start as int, j);
        }
        lemma_split_without_separator(rest, sep@);
        assert(rest =~= f@);
        assert(views(fields@) =~= views(before).push(f@));
        assert(views(before) + seq![f@] =~= views(fields@));
    }
    fields
}

} // verus!
