//! Queries over the columns of a table whose cells are booleans, integers
//! or strings: which rows match a comparison or a containment, and where a
//! new cell goes in a sorted column.
use vstd::prelude::*;
use crate::array_list::ArrayList;
use crate::text::chars_of;

verus! {

/// How a cell is compared with the value a query carries.
#[derive(Clone, Copy, Debug, PartialEq, Eq, Structural)]
pub enum Query {
    Less,
    LessOrEqual,
    Equal,
    NotEqual,
    GreaterOrEqual,
    Greator,
    QueriedContains,
    QuerierContains,
    ListContains,
}

/// The kind of value a column holds.
#[derive(Clone, Copy, Debug, PartialEq, Eq, Structural)]
pub enum DataType {
    Bool,
    Int,
    UInt,
    Float,
    String,
    List,
    Struct,
}

/// Whether the kinds `types` are those that `schema` lists, in order.
pub fn types_match(types: &[DataType], schema: &[DataType]) -> (r: bool)
    ensures
        r == (types@ == schema@),
{
    if types.len() != schema.len() {
        return false;
    }
    let mut i: usize = 0;
    while i < types.len()
        invariant
            types@.len() == schema@.len(),
            i <= types@.len(),
            forall|k: int| 0 <= k < i ==> types@[k] == schema@[k],
        decreases types@.len() - i,
    {
        if types[i] != schema[i] {
            return false;
        }
        i = i + 1;
    }
    assert(types@ =~= schema@);
    true
}

/// A cell value ordered by an integer: `false` before `true`, integers by
/// their value.
pub trait Scalar: Copy + Sized {
    /// The integer by which the value is ordered.
    spec fn rank(&self) -> int;

    /// Whether `self` comes before `other`.
    fn less_than(&self, other: &Self) -> (r: bool)
        ensures
            r == (self.rank() < other.rank()),
    ;

    /// Whether `self` and `other` are the same value.
    fn same_as(&self, other: &Self) -> (r: bool)
        ensures
            r == (self.rank() == other.rank()),
    ;
}

impl Scalar for bool {
    open spec fn rank(&self) -> int {
        if *self {
            1
        } else {
            0
        }
    }

    fn less_than(&self, other: &Self) -> (r: bool) {
        !*self && *other
    }

    fn same_as(&self, other: &Self) -> (r: bool) {
        *self == *other
    }
}

impl Scalar for i64 {
    open spec fn rank(&self) -> int {
        *self as int
    }

    fn less_than(&self, other: &Self) -> (r: bool) {
        *self < *other
    }

    fn same_as(&self, other: &Self) -> (r: bool) {
        *self == *other
    }
}

impl Scalar for u64 {
    open spec fn rank(&self) -> int {
        *self as int
    }

    fn less_than(&self, other: &Self) -> (r: bool) {
        *self < *other
    }

    fn same_as(&self, other: &Self) -> (r: bool) {
        *self == *other
    }
}

/// Whether `q` compares by order (the queries about containment do not
/// apply to booleans and integers).
pub open spec fn is_order_query(q: Query) -> bool {
    match q {
        Query::QueriedContains | Query::QuerierContains | Query::ListContains => false,
        _ => true,
    }
}

/// Whether a cell ranked `a` answers the query `q` for a value ranked `b`.
pub open spec fn order_holds(a: int, b: int, q: Query) -> bool {
    match q {
        Query::Less => a < b,
        Query::LessOrEqual => a <= b,
        Query::Equal => a == b,
        Query::NotEqual => a != b,
        Query::GreaterOrEqual => a >= b,
        Query::Greator => a > b,
        _ => false,
    }
}

/// The rows of `s` whose cell answers `q` for `it`, each with its index,
/// in order.
pub open spec fn matching_rows<T: Scalar>(s: Seq<T>, it: T, q: Query) -> Seq<(usize, T)>
    decreases s.len(),
{
    if s.len() == 0 {
        Seq::empty()
    } else {
        let prev = matching_rows(s.drop_last(), it, q);
        if order_holds(s.last().rank(), it.rank(), q) {
            prev.push(((s.len() - 1) as usize, s.last()))
        } else {
            prev
        }
    }
}

/// Whether `a` answers `q` for `b`; `None` for a query about containment.
pub fn query_holds<T: Scalar>(a: &T, b: &T, q: Query) -> (r: Option<bool>)
    ensures
        is_order_query(q) ==> r == Some(order_holds(a.rank(), b.rank(), q)),
        !is_order_query(q) ==> r is None,
{
    match q {
        Query::Less => Some(a.less_than(b)),
        Query::LessOrEqual => Some(!b.less_than(a)),
        Query::Equal => Some(a.same_as(b)),
        Query::NotEqual => Some(!a.same_as(b)),
        Query::GreaterOrEqual => Some(!a.less_than(b)),
        Query::Greator => Some(b.less_than(a)),
        _ => None,
    }
}

/// The rows of the column `items` whose cell answers `query` for `it`, each
/// with its index; `None` for a query about containment.
pub fn find_matching_scalar<T: Scalar>(items: &ArrayList<T>, it: T, query: Query) -> (r: Option<
    Vec<(usize, T)>,
>)
    requires
        items.wf(),
    ensures
        is_order_query(query) ==> (r matches Some(v) && v@ == matching_rows(items@, it, query)),
        !is_order_query(query) ==> r is None,
{
    if !is_order_query_exec(query) {
        return None;
    }
    let mut out: Vec<(usize, T)> = Vec::new();
    let mut i: usize = 0;
    proof {
        items.lemma_items_within_count();
    }
    loop
        invariant
            items.wf(),
            items@.len() <= usize::MAX,
            is_order_query(query),
            i <= items@.len(),
            out@ == matching_rows(items@.subrange(0, i as int), it, query),
        decreases items@.len() - i,
    {
        match items.get(i) {
            None => {
                assert(items@.subrange(0, i as int) =~= items@);
                return Some(out);
            },
            Some(j) => {
                let ghost pre = items@.subrange(0, i as int);
                let ghost next = items@.subrange(0, i + 1);
                assert(next.drop_last() =~= pre);
                let holds = query_holds(j, &it, query);
                if holds == Some(true) {
                    out.push((i, *j));
                }
                i = i + 1;
            },
        }
    }
}

/// Whether `q` compares by order.
pub fn is_order_query_exec(q: Query) -> (r: bool)
    ensures
        r == is_order_query(q),
{
    match q {
        Query::QueriedContains | Query::QuerierContains | Query::ListContains => false,
        _ => true,
    }
}

/// The cell at `index` where there is one and it answers `query` for `it`.
pub fn get_if_matches_scalar<T: Scalar>(items: &ArrayList<T>, index: usize, it: T, query: Query) -> (r:
    Option<T>)
    requires
        items.wf(),
    ensures
        r == (if is_order_query(query) && index < items@.len() && order_holds(
            items@[index as int].rank(),
            it.rank(),
            query,
        ) {
            Some(items@[index as int])
        } else {
            None
        }),
{
    if !is_order_query_exec(query) {
        return None;
    }
    match items.get(index) {
        None => None,
        Some(j) => {
            if query_holds(j, &it, query) == Some(true) {
                Some(*j)
            } else {
                None
            }
        },
    }
}

/// The first index of `s` whose value comes before `x`, where there is one.
pub open spec fn first_below<T: Scalar>(s: Seq<T>, x: T, k: int) -> bool {
    &&& 0 <= k < s.len()
    &&& s[k].rank() < x.rank()
    &&& forall|j: int| 0 <= j < k ==> s[j].rank() >= x.rank()
}

/// Puts `x` into the column `items` right after the first cell that comes
/// before it, or at the end where none does, and returns where it went. The
/// search runs over the reported length, so where that exceeds the number of
/// cells some cell before the end must come before `x`.
pub fn add_sorted_scalar<T: Scalar>(items: &mut ArrayList<T>, x: T) -> (r: usize)
    requires
        old(items).wf(),
        old(items).count() < usize::MAX,
        old(items).count() == old(items)@.len() || exists|k: int|
            0 <= k < old(items)@.len() && (#[trigger] old(items)@[k]).rank() < x.rank(),
    ensures
        final(items).wf(),
        final(items).count() == old(items).count() + 1,
        (exists|k: int| first_below(old(items)@, x, k)) ==> {
            &&& first_below(old(items)@, x, r - 1)
            &&& final(items)@ == old(items)@.insert(r as int, x)
        },
        (forall|k: int| !first_below(old(items)@, x, k)) ==> {
            &&& r == old(items).count()
            &&& final(items)@ == old(items)@.push(x)
        },
{
    let n = items.len();
    let ghost s = items@;
    proof {
        items.lemma_items_within_count();
    }
    let mut i: usize = 0;
    while i < n
        invariant
            items.wf(),
            items@ == s,
            n == items.count(),
            n < usize::MAX,
            s.len() <= n,
            s == old(items)@,
            items.count() == old(items).count(),
            n == s.len() || exists|k: int| 0 <= k < s.len() && (#[trigger] s[k]).rank() < x.rank(),
            i <= n,
            forall|j: int| 0 <= j < i ==> s[j].rank() >= x.rank(),
        decreases n - i,
    {
        match items.get(i) {
            None => {
                proof {
                    let k = choose|k: int| 0 <= k < s.len() && (#[trigger] s[k]).rank() < x.rank();
                    assert(s[k].rank() >= x.rank());
                }
                return 0;
            },
            Some(v) => {
                if v.less_than(&x) {
                    proof {
                        assert(first_below(s, x, i as int));
                        assert forall|k: int| first_below(s, x, k) implies k == i by {
                            if k < i {
                                assert(s[k].rank() >= x.rank());
                            }
                            if k > i {
                                assert(s[i as int].rank() >= x.rank());
                            }
                        }
                        if i + 1 == s.len() {
                            assert(s.insert(i + 1, x) =~= s.push(x));
                        }
                    }
                    items.insert(i + 1, x);
                    return i + 1;
                }
            },
        }
        i = i + 1;
    }
    proof {
        assert forall|k: int| !first_below(s, x, k) by {
            if 0 <= k < s.len() && k < n {
                assert(s[k].rank() >= x.rank());
            }
        }
    }
    items.push(x);
    proof {
        if n != s.len() {
            let k = choose|k: int| 0 <= k < s.len() && (#[trigger] s[k]).rank() < x.rank();
            assert(s[k].rank() >= x.rank());
        }
    }
    n
}

/// Whether `a` comes before `b` in the order of strings: character by
/// character by code point, a proper prefix first.
pub open spec fn lex_less(a: Seq<char>, b: Seq<char>) -> bool
    decreases a.len(),
{
    if a.len() == 0 {
        b.len() > 0
    } else if b.len() == 0 {
        false
    } else if a[0] != b[0] {
        a[0] < b[0]
    } else {
        lex_less(a.drop_first(), b.drop_first())
    }
}

/// Whether `needle` stands in `hay` at some place.
pub open spec fn contains_seq(hay: Seq<char>, needle: Seq<char>) -> bool {
    exists|k: int| 0 <= k <= hay.len() - needle.len() && #[trigger] hay.subrange(k, k + needle.len()) == needle
}

/// Whether a string cell `a` answers the query `q` for the string `b`; the
/// queries about lists apply to no string.
pub open spec fn string_holds(a: Seq<char>, b: Seq<char>, q: Query) -> bool {
    match q {
        Query::Less => lex_less(a, b),
        Query::LessOrEqual => !lex_less(b, a),
        Query::Equal => a == b,
        Query::NotEqual => a != b,
        Query::GreaterOrEqual => !lex_less(a, b),
        Query::Greator => lex_less(b, a),
        Query::QueriedContains => contains_seq(a, b),
        Query::QuerierContains => contains_seq(b, a),
        Query::ListContains => false,
    }
}

/// Whether the cell at a given row answers `q` for `b` as the row test
/// makes it: each comparison by order tests whether the cell comes before
/// `b`, and the containments are tested as in `string_holds`.
pub open spec fn string_row_holds(a: Seq<char>, b: Seq<char>, q: Query) -> bool {
    match q {
        Query::QueriedContains | Query::QuerierContains | Query::ListContains => string_holds(a, b, q),
        _ => lex_less(a, b),
    }
}

/// The text of each cell of a string column.
pub open spec fn texts(s: Seq<String>) -> Seq<Seq<char>> {
    s.map_values(|x: String| x@)
}

/// The rows of `s` whose text answers `q` for `it`, each with its index, in
/// order.
pub open spec fn matching_string_rows(s: Seq<Seq<char>>, it: Seq<char>, q: Query) -> Seq<(usize, Seq<char>)>
    decreases s.len(),
{
    if s.len() == 0 {
        Seq::empty()
    } else {
        let prev = matching_string_rows(s.drop_last(), it, q);
        if string_holds(s.last(), it, q) {
            prev.push(((s.len() - 1) as usize, s.last()))
        } else {
            prev
        }
    }
}

/// The rows found, each as its index and text.
pub open spec fn found_texts(v: Seq<(usize, String)>) -> Seq<(usize, Seq<char>)> {
    v.map_values(|p: (usize, String)| (p.0, p.1@))
}

/// Whether `a` comes before `b` in the order of strings.
fn chars_less(a: &Vec<char>, b: &Vec<char>) -> (r: bool)
    ensures
        r == lex_less(a@, b@),
{
    let mut i: usize = 0;
    assert(a@.skip(0) =~= a@ && b@.skip(0) =~= b@);
    while i < a.len() && i < b.len()
        invariant
            i <= a@.len(),
            i <= b@.len(),
            lex_less(a@, b@) == lex_less(a@.skip(i as int), b@.skip(i as int)),
        decreases a@.len() - i,
    {
        let ghost sa = a@.skip(i as int);
        let ghost sb = b@.skip(i as int);
        assert(sa[0] == a@[i as int] && sb[0] == b@[i as int]);
        if a[i] != b[i] {
            return a[i] < b[i];
        }
        assert(sa.drop_first() =~= a@.skip(i + 1));
        assert(sb.drop_first() =~= b@.skip(i + 1));
        i += 1;
    }
    assert(a@.skip(i as int).len() == 0 || b@.skip(i as int).len() == 0);
    i == a.len() && i < b.len()
}

/// Whether `needle` stands in `hay` at some place.
fn chars_contain(hay: &Vec<char>, needle: &Vec<char>) -> (r: bool)
    ensures
        r == contains_seq(hay@, needle@),
{
    if needle.len() > hay.len() {
        return false;
    }
    let n: usize = hay.len();
    let last = n - needle.len();
    let mut k: usize = 0;
    while k <= last
        invariant
            n == hay@.len(),
            needle@.len() <= hay@.len(),
            last == hay@.len() - needle@.len(),
            forall|j: int| 0 <= j < k ==> #[trigger] hay@.subrange(j, j + needle@.len()) != needle@,
        decreases last + 1 - k,
    {
        let mut m: usize = 0;
        while m < needle.len() && hay[k + m] == needle[m]
            invariant
                k <= last,
                n == hay@.len(),
                needle@.len() <= hay@.len(),
                last == hay@.len() - needle@.len(),
                m <= needle@.len(),
                forall|x: int| 0 <= x < m ==> hay@[k + x] == needle@[x],
            decreases needle@.len() - m,
        {
            m += 1;
        }
        if m == needle.len() {
            assert(hay@.subrange(k as int, k + needle@.len()) =~= needle@);
            return true;
        }
        assert(hay@.subrange(k as int, k + needle@.len())[m as int] != needle@[m as int]);
        if k == last {
            return false;
        }
        k += 1;
    }
    false
}

/// Whether the text `a` answers `q` for `b`, as `string_holds` says.
fn string_query_holds(a: &Vec<char>, b: &Vec<char>, q: Query) -> (r: bool)
    ensures
        r == string_holds(a@, b@, q),
{
    match q {
        Query::Less => chars_less(a, b),
        Query::LessOrEqual => !chars_less(b, a),
        Query::Equal => {
            proof {
                lemma_lex_total(a@, b@);
            }
            !chars_less(a, b) && !chars_less(b, a)
        },
        Query::NotEqual => {
            proof {
                lemma_lex_total(a@, b@);
            }
            chars_less(a, b) || chars_less(b, a)
        },
        Query::GreaterOrEqual => !chars_less(a, b),
        Query::Greator => chars_less(b, a),
        Query::QueriedContains => chars_contain(a, b),
        Query::QuerierContains => chars_contain(b, a),
        Query::ListContains => false,
    }
}

/// Two strings are equal exactly when neither comes before the other.
pub proof fn lemma_lex_total(a: Seq<char>, b: Seq<char>)
    ensures
        a == b <==> !lex_less(a, b) && !lex_less(b, a),
        !(lex_less(a, b) && lex_less(b, a)),
    decreases a.len(),
{
    if a.len() > 0 && b.len() > 0 && a[0] == b[0] {
        lemma_lex_total(a.drop_first(), b.drop_first());
        if a.drop_first() == b.drop_first() {
            assert(a =~= seq![a[0]] + a.drop_first());
            assert(b =~= seq![b[0]] + b.drop_first());
        }
    } else if a.len() == 0 && b.len() == 0 {
        assert(a =~= b);
    }
}

/// The rows of the string column `items` whose text answers `query` for
/// `it`, each with its index and a copy of its text; `None` for the query
/// about lists, which applies to no string.
pub fn find_matching_string(items: &ArrayList<String>, it: &String, query: Query) -> (r: Option<
    Vec<(usize, String)>,
>)
    requires
        items.wf(),
    ensures
        query != Query::ListContains ==> (r matches Some(v) && found_texts(v@) == matching_string_rows(
            texts(items@),
            it@,
            query,
        )),
        query == Query::ListContains ==> r is None,
{
    if let Query::ListContains = query {
        return None;
    }
    let wanted = chars_of(it.as_str());
    let mut out: Vec<(usize, String)> = Vec::new();
    let mut i: usize = 0;
    proof {
        items.lemma_items_within_count();
    }
    loop
        invariant
            items.wf(),
            items@.len() <= usize::MAX,
            !(query is ListContains),
            wanted@ == it@,
            i <= items@.len(),
            found_texts(out@) == matching_string_rows(texts(items@.subrange(0, i as int)), it@, query),
        decreases items@.len() - i,
    {
        match items.get(i) {
            None => {
                assert(items@.subrange(0, i as int) =~= items@);
                return Some(out);
            },
            Some(j) => {
                let ghost pre = texts(items@.subrange(0, i as int));
                let ghost next = texts(items@.subrange(0, i + 1));
                assert(next.drop_last() =~= pre);
                assert(next.last() == j@);
                let cell = chars_of(j.as_str());
                if string_query_holds(&cell, &wanted, query) {
                    let ghost before = out@;
                    out.push((i, j.clone()));
                    assert(found_texts(out@) =~= found_texts(before).push((i, j@)));
                }
                i = i + 1;
            },
        }
    }
}

/// The text at row `index` where there is one and it answers `query` for
/// `it` as `string_row_holds` tests it.
pub fn get_if_matches_string(items: &ArrayList<String>, index: usize, it: &String, query: Query) -> (r:
    Option<String>)
    requires
        items.wf(),
    ensures
        r is Some <==> index < items@.len() && string_row_holds(items@[index as int]@, it@, query),
        r matches Some(s) ==> s@ == items@[index as int]@,
{
    match items.get(index) {
        None => None,
        Some(j) => {
            let cell = chars_of(j.as_str());
            let wanted = chars_of(it.as_str());
            let hit = match query {
                Query::QueriedContains | Query::QuerierContains | Query::ListContains => string_query_holds(
                    &cell,
                    &wanted,
                    query,
                ),
                _ => chars_less(&cell, &wanted),
            };
            if hit {
                Some(j.clone())
            } else {
                None
            }
        },
    }
}

/// The first index of `s` whose text comes before `x`, where there is one.
pub open spec fn first_text_below(s: Seq<String>, x: Seq<char>, k: int) -> bool {
    &&& 0 <= k < s.len()
    &&& lex_less(s[k]@, x)
    &&& forall|j: int| 0 <= j < k ==> !lex_less(#[trigger] s[j]@, x)
}

/// Puts `x` into the string column `items` right after the first cell that
/// comes before it, or at the end where none does, and returns where it
/// went, as `add_sorted_scalar` does for booleans and integers.
pub fn add_sorted_string(items: &mut ArrayList<String>, x: String) -> (r: usize)
    requires
        old(items).wf(),
        old(items).count() < usize::MAX,
        old(items).count() == old(items)@.len() || exists|k: int|
            0 <= k < old(items)@.len() && lex_less((#[trigger] old(items)@[k])@, x@),
    ensures
        final(items).wf(),
        final(items).count() == old(items).count() + 1,
        (exists|k: int| first_text_below(old(items)@, x@, k)) ==> {
            &&& first_text_below(old(items)@, x@, r - 1)
            &&& final(items)@ == old(items)@.insert(r as int, x)
        },
        (forall|k: int| !first_text_below(old(items)@, x@, k)) ==> {
            &&& r == old(items).count()
            &&& final(items)@ == old(items)@.push(x)
        },
{
    let n = items.len();
    let ghost s = items@;
    let xc = chars_of(x.as_str());
    proof {
        items.lemma_items_within_count();
    }
    let mut i: usize = 0;
    while i < n
        invariant
            items.wf(),
            items@ == s,
            xc@ == x@,
            n == items.count(),
            n < usize::MAX,
            s.len() <= n,
            s == old(items)@,
            items.count() == old(items).count(),
            n == s.len() || exists|k: int| 0 <= k < s.len() && lex_less((#[trigger] s[k])@, x@),
            i <= n,
            forall|j: int| 0 <= j < i ==> !lex_less(#[trigger] s[j]@, x@),
        decreases n - i,
    {
        match items.get(i) {
            None => {
                proof {
                    let k = choose|k: int| 0 <= k < s.len() && lex_less((#[trigger] s[k])@, x@);
                    assert(!lex_less(s[k]@, x@));
                }
                return 0;
            },
            Some(v) => {
                let vc = chars_of(v.as_str());
                if chars_less(&vc, &xc) {
                    proof {
                        assert(first_text_below(s, x@, i as int));
                        assert forall|k: int| first_text_below(s, x@, k) implies k == i by {
                            if k < i {
                                assert(!lex_less(s[k]@, x@));
                            }
                            if k > i {
                                assert(!lex_less(s[i as int]@, x@));
                            }
                        }
                        if i + 1 == s.len() {
                            assert(s.insert(i + 1, x) =~= s.push(x));
                        }
                    }
                    items.insert(i + 1, x);
                    return i + 1;
                }
            },
        }
        i = i + 1;
    }
    proof {
        assert forall|k: int| !first_text_below(s, x@, k) by {
            if 0 <= k < s.len() && k < n {
                assert(!lex_less(s[k]@, x@));
            }
        }
    }
    items.push(x);
    proof {
        if n != s.len() {
            let k = choose|k: int| 0 <= k < s.len() && lex_less((#[trigger] s[k])@, x@);
            assert(!lex_less(s[k]@, x@));
        }
    }
    n
}

/// The rows that a query finds are exactly the rows whose cell answers it
/// (those for which `get_if_matches_scalar` gives the cell), each once, in
/// the order of the column.
pub proof fn law_matching_rows_exact<T: Scalar>(s: Seq<T>, it: T, q: Query)
    requires
        s.len() <= usize::MAX,
    ensures
        forall|k: int|
            0 <= k < matching_rows(s, it, q).len() ==> {
                let row = #[trigger] matching_rows(s, it, q)[k];
                &&& row.0 < s.len()
                &&& s[row.0 as int] == row.1
                &&& order_holds(row.1.rank(), it.rank(), q)
            },
        forall|i: int|
            0 <= i < s.len() && order_holds(#[trigger] s[i].rank(), it.rank(), q) ==> exists|k: int|
                0 <= k < matching_rows(s, it, q).len() && matching_rows(s, it, q)[k] == (
                    i as usize,
                    s[i],
                ),
        forall|a: int, b: int|
            0 <= a < b < matching_rows(s, it, q).len() ==> (#[trigger] matching_rows(s, it, q)[a]).0
                < (#[trigger] matching_rows(s, it, q)[b]).0,
    decreases s.len(),
{
    if s.len() > 0 {
        let init = s.drop_last();
        law_matching_rows_exact(init, it, q);
        let prev = matching_rows(init, it, q);
        let rows = matching_rows(s, it, q);
        assert forall|k: int| 0 <= k < prev.len() implies (#[trigger] prev[k]).0 < init.len() by {}
        assert forall|i: int|
            0 <= i < s.len() && order_holds(#[trigger] s[i].rank(), it.rank(), q) implies exists|k: int|
                0 <= k < rows.len() && rows[k] == (i as usize, s[i]) by {
            if i < s.len() - 1 {
                assert(init[i] == s[i]);
                let k = choose|k: int| 0 <= k < prev.len() && prev[k] == (i as usize, init[i]);
                assert(rows[k] == prev[k]);
            } else {
                assert(rows[prev.len() as int] == (i as usize, s[i]));
            }
        }
    }
}

/// The rows that a query on a string column finds are exactly the rows
/// whose text answers it, each once, in the order of the column.
pub proof fn law_matching_string_rows_exact(s: Seq<Seq<char>>, it: Seq<char>, q: Query)
    requires
        s.len() <= usize::MAX,
    ensures
        forall|k: int|
            0 <= k < matching_string_rows(s, it, q).len() ==> {
                let row = #[trigger] matching_string_rows(s, it, q)[k];
                &&& row.0 < s.len()
                &&& s[row.0 as int] == row.1
                &&& string_holds(row.1, it, q)
            },
        forall|i: int|
            0 <= i < s.len() && string_holds(#[trigger] s[i], it, q) ==> exists|k: int|
                0 <= k < matching_string_rows(s, it, q).len() && matching_string_rows(s, it, q)[k] == (
                    i as usize,
                    s[i],
                ),
        forall|a: int, b: int|
            0 <= a < b < matching_string_rows(s, it, q).len() ==> (#[trigger] matching_string_rows(
                s,
                it,
                q,
            )[a]).0 < (#[trigger] matching_string_rows(s, it, q)[b]).0,
    decreases s.len(),
{
    if s.len() > 0 {
        let init = s.drop_last();
        law_matching_string_rows_exact(init, it, q);
        let prev = matching_string_rows(init, it, q);
        let rows = matching_string_rows(s, it, q);
        assert forall|k: int| 0 <= k < prev.len() implies (#[trigger] prev[k]).0 < init.len() by {}
        assert forall|i: int| 0 <= i < s.len() && string_holds(#[trigger] s[i], it, q) implies exists|k: int|
            0 <= k < rows.len() && rows[k] == (i as usize, s[i]) by {
            if i < s.len() - 1 {
                assert(init[i] == s[i]);
                let k = choose|k: int| 0 <= k < prev.len() && prev[k] == (i as usize, init[i]);
                assert(rows[k] == prev[k]);
            } else {
                assert(rows[prev.len() as int] == (i as usize, s[i]));
            }
        }
    }
}

} // verus!
