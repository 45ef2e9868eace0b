//! The order of strings, and lists that are kept in that order without
//! repeats.

use vstd::prelude::*;
use vstd::string::*;

verus! {

/// Whether `a` and `b` agree up to position `k`, where `a` ends first or has
/// the smaller character.
pub open spec fn precedes_at(a: Seq<char>, b: Seq<char>, k: int) -> bool {
    &&& 0 <= k <= a.len()
    &&& k < b.len()
    &&& forall|j: int| 0 <= j < k ==> a[j] == b[j]
    &&& k == a.len() || (a[k] as int) < (b[k] as int)
}

/// The order of strings: by the first character that differs, and a string
/// comes after those it begins with.
pub open spec fn precedes(a: Seq<char>, b: Seq<char>) -> bool {
    exists|k: int| precedes_at(a, b, k)
}

/// No string precedes itself, and of two strings not both precede the other.
pub proof fn lemma_asymmetric(a: Seq<char>, b: Seq<char>)
    ensures
        precedes(a, b) ==> !precedes(b, a),
        !precedes(a, a),
{
    if precedes(a, b) && precedes(b, a) {
        let k = choose|k: int| precedes_at(a, b, k);
        let m = choose|m: int| precedes_at(b, a, m);
        if k < m {
            assert(a[k] == b[k]);
        } else if m < k {
            assert(a[m] == b[m]);
        }
    }
}

/// The order is transitive.
pub proof fn lemma_transitive(a: Seq<char>, b: Seq<char>, c: Seq<char>)
    requires
        precedes(a, b),
        precedes(b, c),
    ensures
        precedes(a, c),
{
    let k = choose|k: int| precedes_at(a, b, k);
    let m = choose|m: int| precedes_at(b, c, m);
    let n = if k < m {
        k
    } else {
        m
    };
    assert(precedes_at(a, c, n));
}

/// A string comes before those that it begins, and of two others the one that
/// has the smaller character where they first differ.
pub proof fn law_the_first_difference_decides(
    head: Seq<char>,
    c: char,
    d: char,
    after_c: Seq<char>,
    after_d: Seq<char>,
)
    ensures
        precedes(head, head + seq![c] + after_c),
        (c as int) < (d as int) ==> precedes(
            head + seq![c] + after_c,
            head + seq![d] + after_d,
        ),
        !precedes(head, head),
{
    let k = head.len() as int;
    let a = head + seq![c] + after_c;
    let b = head + seq![d] + after_d;
    assert(precedes_at(head, a, k));
    if (c as int) < (d as int) {
        assert(a[k] == c && b[k] == d);
        assert(precedes_at(a, b, k));
    }
    lemma_asymmetric(head, head);
}

/// How one string stands to another.
pub enum Placement {
    Before,
    Same,
    After,
}

/// Compares two strings.
pub fn place(a: &String, b: &String) -> (r: Placement)
    ensures
        match r {
            Placement::Before => precedes(a@, b@),
            Placement::Same => a@ == b@,
            Placement::After => precedes(b@, a@),
        },
{
    let la: usize = a.as_str().unicode_len();
    let lb: usize = b.as_str().unicode_len();
    let mut i: usize = 0;
    while i < la && i < lb
        invariant
            la == a@.len(),
            lb == b@.len(),
            i <= la,
            i <= lb,
            forall|j: int| 0 <= j < i ==> a@[j] == b@[j],
        decreases la - i,
    {
        let ca: char = a.as_str().get_char(i);
        let cb: char = b.as_str().get_char(i);
        if (ca as u32) < (cb as u32) {
            assert(precedes_at(a@, b@, i as int));
            return Placement::Before;
        }
        if (cb as u32) < (ca as u32) {
            assert(precedes_at(b@, a@, i as int));
            return Placement::After;
        }
        i = i + 1;
    }
    if la < lb {
        assert(precedes_at(a@, b@, i as int));
        Placement::Before
    } else if lb < la {
        assert(precedes_at(b@, a@, i as int));
        Placement::After
    } else {
        assert(a@ =~= b@);
        Placement::Same
    }
}

/// The characters of each string of a list.
pub open spec fn texts(list: Seq<String>) -> Seq<Seq<char>> {
    Seq::new(list.len(), |i: int| list[i]@)
}

/// The strings of a list are looked at one by one, each as it is.
pub proof fn law_a_list_is_its_strings(list: Seq<String>)
    ensures
        texts(list).len() == list.len(),
        forall|i: int| 0 <= i < list.len() ==> #[trigger] texts(list)[i] == list[i]@,
{
}

/// Whether each string of a list precedes those after it: the list is in
/// order and holds nothing twice.
pub open spec fn in_order(list: Seq<Seq<char>>) -> bool {
    forall|i: int, j: int| 0 <= i < j < list.len() ==> precedes(#[trigger] list[i], #[trigger] list[j])
}

/// Puts `s` where it belongs in an ordered list, unless it is there already.
pub fn insert_text(list: &mut Vec<String>, s: String)
    requires
        in_order(texts(old(list)@)),
    ensures
        in_order(texts(final(list)@)),
        forall|t: Seq<char>| #[trigger]
            texts(final(list)@).contains(t) <==> texts(old(list)@).contains(t) || t == s@,
{
    let ghost before = list@;
    let mut i: usize = 0;
    while i < list.len()
        invariant
            before == old(list)@,
            list@ == before,
            i <= list@.len(),
            in_order(texts(before)),
            forall|j: int| 0 <= j < i ==> precedes(#[trigger] texts(before)[j], s@),
        decreases list@.len() - i,
    {
        match place(&list[i], &s) {
            Placement::Before => {
                i = i + 1;
            },
            Placement::Same => {
                assert(texts(before)[i as int] == s@);
                return ;
            },
            Placement::After => {
                proof {
                    lemma_insert(before, i as int, s);
                }
                list.insert(i, s);
                return ;
            },
        }
    }
    proof {
        lemma_insert(before, i as int, s);
    }
    list.insert(i, s);
}

proof fn lemma_insert(list: Seq<String>, i: int, s: String)
    requires
        in_order(texts(list)),
        0 <= i <= list.len(),
        forall|j: int| 0 <= j < i ==> precedes(#[trigger] texts(list)[j], s@),
        i < list.len() ==> precedes(s@, texts(list)[i]),
    ensures
        in_order(texts(list.insert(i, s))),
        forall|t: Seq<char>| #[trigger]
            texts(list.insert(i, s)).contains(t) <==> texts(list).contains(t) || t == s@,
{
    let old_texts = texts(list);
    let new_list = list.insert(i, s);
    let new_texts = texts(new_list);
    assert(new_texts[i] == s@);
    assert forall|j: int| 0 <= j < i implies #[trigger] new_texts[j] == old_texts[j] by {
        assert(new_list[j] == list[j]);
    }
    assert forall|j: int| i < j < new_texts.len() implies #[trigger] new_texts[j] == old_texts[j
        - 1] by {
        assert(new_list[j] == list[j - 1]);
    }
    assert forall|a: int, b: int| 0 <= a < b < new_texts.len() implies precedes(
        #[trigger] new_texts[a],
        #[trigger] new_texts[b],
    ) by {
        if a < i && b > i {
            assert(precedes(old_texts[a], old_texts[b - 1]));
        } else if a == i && b > i + 1 {
            assert(precedes(old_texts[i], old_texts[b - 1]));
            lemma_transitive(s@, old_texts[i], old_texts[b - 1]);
        } else if a < i && b < i {
            assert(precedes(old_texts[a], old_texts[b]));
        } else if a > i {
            assert(precedes(old_texts[a - 1], old_texts[b - 1]));
        }
    }
    assert forall|t: Seq<char>| #[trigger] new_texts.contains(t) implies old_texts.contains(t) || t
        == s@ by {
        let j = choose|j: int| 0 <= j < new_texts.len() && new_texts[j] == t;
        if j < i {
            assert(old_texts[j] == t);
        } else if j > i {
            assert(old_texts[j - 1] == t);
        }
    }
    assert forall|t: Seq<char>| old_texts.contains(t) || t == s@ implies #[trigger] new_texts.contains(t)
    by {
        if old_texts.contains(t) {
            let j = choose|j: int| 0 <= j < old_texts.len() && old_texts[j] == t;
            if j < i {
                assert(new_texts[j] == t);
            } else {
                assert(new_texts[j + 1] == t);
            }
        }
    }
}

/// Two ordered lists of the same strings are the same list.
pub proof fn lemma_one_order(a: Seq<Seq<char>>, b: Seq<Seq<char>>)
    requires
        in_order(a),
        in_order(b),
        forall|t: Seq<char>| a.contains(t) <==> b.contains(t),
    ensures
        a == b,
{
    lemma_shared_prefix(a, b, a.len() as int);
    if b.len() > a.len() {
        let t = b[a.len() as int];
        assert(b.contains(t));
        let i = choose|i: int| 0 <= i < a.len() && a[i] == t;
        assert(a[i] == b[i]);
        assert(precedes(b[i], b[a.len() as int]));
        lemma_asymmetric(t, t);
    }
    assert(a =~= b);
}

proof fn lemma_shared_prefix(a: Seq<Seq<char>>, b: Seq<Seq<char>>, n: int)
    requires
        in_order(a),
        in_order(b),
        forall|t: Seq<char>| a.contains(t) <==> b.contains(t),
        0 <= n <= a.len(),
    ensures
        n <= b.len(),
        forall|i: int| 0 <= i < n ==> a[i] == b[i],
    decreases n,
{
    if n > 0 {
        let m = n - 1;
        lemma_shared_prefix(a, b, m);
        assert(a.contains(a[m]));
        let p = choose|p: int| 0 <= p < b.len() && b[p] == a[m];
        if p < m {
            assert(a[p] == b[p]);
            assert(precedes(a[p], a[m]));
            lemma_asymmetric(a[m], a[m]);
        }
        assert(b.contains(b[m]));
        let q = choose|q: int| 0 <= q < a.len() && a[q] == b[m];
        if q < m {
            assert(a[q] == b[q]);
            assert(precedes(b[q], b[m]));
            lemma_asymmetric(b[m], b[m]);
        }
        if p > m && q > m {
            assert(precedes(b[m], b[p]));
            assert(precedes(a[m], a[q]));
            lemma_asymmetric(a[m], b[m]);
        }
    }
}

} // verus!
