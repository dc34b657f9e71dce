//! Rows of column families, as plain values.
use vstd::prelude::*;

verus! {

/// A key and its value, as a column family holds them.
pub struct Row {
    pub key: Vec<u8>,
    pub value: Vec<u8>,
}

/// The bytes of a row.
#[verifier::ext_equal]
pub struct RowView {
    pub key: Seq<u8>,
    pub value: Seq<u8>,
}

impl View for Row {
    type V = RowView;

    open spec fn view(&self) -> RowView {
        RowView { key: self.key@, value: self.value@ }
    }
}

/// The bytes of each row of a list.
pub open spec fn rows_view(rows: Seq<Row>) -> Seq<RowView> {
    Seq::new(rows.len(), |i: int| rows[i]@)
}

/// A column family of a database: its name, and its rows in the order in
/// which they are walked.
pub struct ColumnFamily {
    pub name: String,
    pub rows: Vec<Row>,
}

/// The rows of the first column family of that name, if there is one.
pub open spec fn family_rows(db: Seq<ColumnFamily>, name: Seq<char>) -> Option<Seq<RowView>>
    decreases db.len(),
{
    if db.len() == 0 {
        None
    } else if db[0].name@ == name {
        Some(rows_view(db[0].rows@))
    } else {
        family_rows(db.drop_first(), name)
    }
}

/// Whether two byte strings are the same.
pub(crate) fn same_bytes(a: &[u8], b: &[u8]) -> (same: bool)
    ensures
        same <==> a@ == b@,
{
    if a.len() != b.len() {
        return false;
    }
    let mut i: usize = 0;
    while i < a.len()
        invariant
            i <= a@.len(),
            a@.len() == b@.len(),
            forall|j: int| 0 <= j < i ==> a@[j] == b@[j],
        decreases a@.len() - i,
    {
        if a[i] != b[i] {
            return false;
        }
        i = i + 1;
    }
    assert(a@ =~= b@);
    true
}

/// The position of the first column family of that name, if there is one.
pub(crate) fn find_family(db: &[ColumnFamily], name: &String) -> (found: Option<usize>)
    ensures
        match found {
            Some(i) => i < db@.len() && family_rows(db@, name@) == Some(rows_view(db@[i as int].rows@)),
            None => family_rows(db@, name@) is None,
        },
{
    let mut i: usize = 0;
    assert(db@.skip(0) =~= db@);
    while i < db.len()
        invariant
            i <= db@.len(),
            family_rows(db@, name@) == family_rows(db@.skip(i as int), name@),
        decreases db@.len() - i,
    {
        let ghost rest = db@.skip(i as int);
        assert(rest[0] == db@[i as int]);
        if db[i].name == *name {
            return Some(i);
        }
        assert(rest.drop_first() =~= db@.skip(i + 1));
        i = i + 1;
    }
    assert(db@.skip(i as int).len() == 0);
    None
}

/// What a column family maps each key to after `rows` were put into it one
/// after the other: the last row put under a key stays.
pub open spec fn put_rows(family: Map<Seq<u8>, Seq<u8>>, rows: Seq<RowView>) -> Map<
    Seq<u8>,
    Seq<u8>,
>
    decreases rows.len(),
{
    if rows.len() == 0 {
        family
    } else {
        put_rows(family, rows.drop_last()).insert(rows.last().key, rows.last().value)
    }
}

/// Putting two lists of rows one after the other is putting their
/// concatenation.
pub proof fn put_rows_concat(family: Map<Seq<u8>, Seq<u8>>, a: Seq<RowView>, b: Seq<RowView>)
    ensures
        put_rows(put_rows(family, a), b) == put_rows(family, a + b),
    decreases b.len(),
{
    if b.len() == 0 {
        assert(a + b =~= a);
    } else {
        put_rows_concat(family, a, b.drop_last());
        assert((a + b).drop_last() =~= a + b.drop_last());
        assert((a + b).last() == b.last());
    }
}

/// Putting rows into a column family overlays it with what the rows alone
/// would give.
pub proof fn put_rows_overlays(family: Map<Seq<u8>, Seq<u8>>, rows: Seq<RowView>)
    ensures
        put_rows(family, rows) == family.union_prefer_right(put_rows(Map::empty(), rows)),
    decreases rows.len(),
{
    if rows.len() == 0 {
        assert(family.union_prefer_right(Map::empty()) =~= family);
    } else {
        put_rows_overlays(family, rows.drop_last());
        assert(put_rows(family, rows) =~= family.union_prefer_right(
            put_rows(Map::empty(), rows),
        ));
    }
}

/// A row under a key that no later row has is what the key maps to.
pub proof fn last_row_put_stays(family: Map<Seq<u8>, Seq<u8>>, rows: Seq<RowView>, i: int)
    requires
        0 <= i < rows.len(),
        forall|j: int| i < j < rows.len() ==> (#[trigger] rows[j]).key != rows[i].key,
    ensures
        put_rows(family, rows).contains_key(rows[i].key),
        put_rows(family, rows)[rows[i].key] == rows[i].value,
    decreases rows.len(),
{
    if i < rows.len() - 1 {
        let front = rows.drop_last();
        assert forall|j: int| i < j < front.len() implies (#[trigger] front[j]).key
            != front[i].key by {
            assert(front[j] == rows[j]);
        }
        assert(rows[rows.len() - 1].key != rows[i].key);
        last_row_put_stays(family, front, i);
    }
}

/// A key that no row has maps to what it mapped to before.
pub proof fn other_keys_stay(family: Map<Seq<u8>, Seq<u8>>, rows: Seq<RowView>, key: Seq<u8>)
    requires
        forall|j: int| 0 <= j < rows.len() ==> (#[trigger] rows[j]).key != key,
    ensures
        put_rows(family, rows).contains_key(key) == family.contains_key(key),
        put_rows(family, rows)[key] == family[key],
    decreases rows.len(),
{
    if rows.len() > 0 {
        let front = rows.drop_last();
        assert forall|j: int| 0 <= j < front.len() implies (#[trigger] front[j]).key != key by {
            assert(front[j] == rows[j]);
        }
        assert(rows[rows.len() - 1].key != key);
        other_keys_stay(family, front, key);
    }
}

/// What a column family with these rows maps each key to.
pub open spec fn contents(rows: Seq<RowView>) -> Map<Seq<u8>, Seq<u8>> {
    put_rows(Map::empty(), rows)
}

/// The position of the row under a key, if there is one.
pub(crate) fn find_row(rows: &Vec<Row>, key: &[u8]) -> (found: Option<usize>)
    ensures
        match found {
            Some(i) => {
                &&& i < rows@.len()
                &&& contents(rows_view(rows@)).contains_key(key@)
                &&& contents(rows_view(rows@))[key@] == rows@[i as int].value@
            },
            None => !contents(rows_view(rows@)).contains_key(key@),
        },
{
    let ghost all = rows_view(rows@);
    let mut i: usize = rows.len();
    while i > 0
        invariant
            i <= rows@.len(),
            all == rows_view(rows@),
            forall|j: int| i <= j < all.len() ==> (#[trigger] all[j]).key != key@,
        decreases i,
    {
        i = i - 1;
        assert(all[i as int] == rows@[i as int]@);
        if same_bytes(rows[i].key.as_slice(), key) {
            proof {
                last_row_put_stays(Map::empty(), all, i as int);
            }
            return Some(i);
        }
    }
    proof {
        other_keys_stay(Map::empty(), all, key@);
    }
    None
}

/// The order in which a column family is walked: byte by byte, a key before
/// every longer key that starts with it.
pub open spec fn key_before(a: Seq<u8>, b: Seq<u8>) -> bool
    decreases a.len(),
{
    if b.len() == 0 {
        false
    } else if a.len() == 0 {
        true
    } else if a[0] != b[0] {
        a[0] < b[0]
    } else {
        key_before(a.drop_first(), b.drop_first())
    }
}

proof fn key_before_is_asymmetric(a: Seq<u8>, b: Seq<u8>)
    ensures
        !(key_before(a, b) && key_before(b, a)),
    decreases a.len(),
{
    if a.len() > 0 && b.len() > 0 {
        key_before_is_asymmetric(a.drop_first(), b.drop_first());
    }
}

/// Whether each key comes before all that follow it.
pub open spec fn in_key_order(rows: Seq<RowView>) -> bool {
    forall|i: int, j: int|
        0 <= i < j < rows.len() ==> key_before(#[trigger] rows[i].key, #[trigger] rows[j].key)
}

/// Whether a list of rows is what walking a column family gives: every row of
/// it, in the order of the keys.
pub open spec fn is_walk(rows: Seq<RowView>, family: Map<Seq<u8>, Seq<u8>>) -> bool {
    &&& in_key_order(rows)
    &&& forall|i: int|
        0 <= i < rows.len() ==> family.contains_key(#[trigger] rows[i].key) && family[rows[i].key]
            == rows[i].value
    &&& forall|key: Seq<u8>| #[trigger]
        family.contains_key(key) ==> exists|i: int|
            0 <= i < rows.len() && #[trigger] rows[i].key == key
}

/// Rows in key order, put into an empty column family, come out of a walk
/// unchanged.
pub proof fn walk_of_put_rows(rows: Seq<RowView>)
    requires
        in_key_order(rows),
    ensures
        is_walk(rows, put_rows(Map::empty(), rows)),
    decreases rows.len(),
{
    let family = put_rows(Map::<Seq<u8>, Seq<u8>>::empty(), rows);
    if rows.len() > 0 {
        let front = rows.drop_last();
        let before = put_rows(Map::<Seq<u8>, Seq<u8>>::empty(), front);
        assert forall|i: int, j: int| 0 <= i < j < front.len() implies key_before(
            #[trigger] front[i].key,
            #[trigger] front[j].key,
        ) by {
            assert(front[i] == rows[i] && front[j] == rows[j]);
        }
        walk_of_put_rows(front);
        assert forall|i: int| 0 <= i < rows.len() implies family.contains_key(
            #[trigger] rows[i].key,
        ) && family[rows[i].key] == rows[i].value by {
            if i < rows.len() - 1 {
                assert(front[i] == rows[i]);
                assert(key_before(rows[i].key, rows[rows.len() - 1].key));
                key_before_is_asymmetric(rows[i].key, rows[rows.len() - 1].key);
                assert(rows[i].key != rows.last().key);
            }
        }
        assert forall|key: Seq<u8>| #[trigger] family.contains_key(key) implies exists|i: int|
            0 <= i < rows.len() && #[trigger] rows[i].key == key by {
            if key == rows.last().key {
                assert(rows[rows.len() - 1].key == key);
            } else {
                assert(before.contains_key(key));
                let i: int = choose|i: int| 0 <= i < front.len() && #[trigger] front[i].key == key;
                assert(rows[i].key == key);
            }
        }
    }
}

/// A column family has only one walk.
pub proof fn walks_agree(a: Seq<RowView>, b: Seq<RowView>, family: Map<Seq<u8>, Seq<u8>>)
    requires
        is_walk(a, family),
        is_walk(b, family),
    ensures
        a == b,
    decreases a.len(),
{
    if a.len() == 0 {
        if b.len() > 0 {
            assert(family.contains_key(b[0].key));
        }
        assert(a =~= b);
    } else {
        assert(family.contains_key(a[0].key));
        let j: int = choose|j: int| 0 <= j < b.len() && #[trigger] b[j].key == a[0].key;
        assert(family.contains_key(b[0].key));
        let i: int = choose|i: int| 0 <= i < a.len() && #[trigger] a[i].key == b[0].key;
        if j > 0 {
            assert(key_before(b[0].key, b[j].key));
            key_before_is_asymmetric(b[0].key, b[j].key);
            if i > 0 {
                assert(key_before(a[0].key, a[i].key));
            }
            assert(false);
        }
        assert(a[0] =~= b[0]);
        let rest = family.remove(a[0].key);
        walk_without_first(a, family);
        walk_without_first(b, family);
        walks_agree(a.drop_first(), b.drop_first(), rest);
        assert(a =~= seq![a[0]] + a.drop_first());
        assert(b =~= seq![b[0]] + b.drop_first());
    }
}

proof fn walk_without_first(rows: Seq<RowView>, family: Map<Seq<u8>, Seq<u8>>)
    requires
        is_walk(rows, family),
        rows.len() > 0,
    ensures
        is_walk(rows.drop_first(), family.remove(rows[0].key)),
{
    let rest = rows.drop_first();
    let others = family.remove(rows[0].key);
    assert forall|i: int, j: int| 0 <= i < j < rest.len() implies key_before(
        #[trigger] rest[i].key,
        #[trigger] rest[j].key,
    ) by {
        assert(rest[i] == rows[i + 1] && rest[j] == rows[j + 1]);
    }
    assert forall|i: int| 0 <= i < rest.len() implies others.contains_key(#[trigger] rest[i].key)
        && others[rest[i].key] == rest[i].value by {
        assert(rest[i] == rows[i + 1]);
        assert(key_before(rows[0].key, rows[i + 1].key));
        key_before_is_asymmetric(rows[0].key, rows[i + 1].key);
    }
    assert forall|key: Seq<u8>| #[trigger] others.contains_key(key) implies exists|i: int|
        0 <= i < rest.len() && #[trigger] rest[i].key == key by {
        assert(family.contains_key(key));
        let i: int = choose|i: int| 0 <= i < rows.len() && #[trigger] rows[i].key == key;
        assert(rest[i - 1].key == key);
    }
}

/// A sequence cut from the front into pieces of `n` elements; the last piece
/// holds what is left.
pub open spec fn pieces<A>(s: Seq<A>, n: nat) -> Seq<Seq<A>>
    decreases s.len(),
{
    if n == 0 || s.len() == 0 {
        seq![]
    } else if s.len() <= n {
        seq![s]
    } else {
        seq![s.take(n as int)] + pieces(s.skip(n as int), n)
    }
}

/// The pieces of a sequence, put together again in order, are the sequence.
pub proof fn pieces_lose_nothing<A>(s: Seq<A>, n: nat)
    requires
        n > 0,
    ensures
        pieces(s, n).flatten() == s,
    decreases s.len(),
{
    let p = pieces(s, n);
    if s.len() == 0 {
        assert(p.flatten() =~= s);
    } else if s.len() <= n {
        p.lemma_flatten_one_element();
    } else {
        let rest = pieces(s.skip(n as int), n);
        pieces_lose_nothing(s.skip(n as int), n);
        assert(p.first() == s.take(n as int));
        assert(p.drop_first() =~= rest);
        assert(p.flatten() == p.first() + p.drop_first().flatten());
        assert(s.take(n as int) + s.skip(n as int) =~= s);
    }
}

/// Every piece but the last is full; the last one holds at least one element
/// and no more than a full piece.
pub proof fn pieces_are_full_but_the_last<A>(s: Seq<A>, n: nat, i: int)
    requires
        n > 0,
        0 <= i < pieces(s, n).len(),
    ensures
        0 < pieces(s, n)[i].len() <= n,
        i < pieces(s, n).len() - 1 ==> pieces(s, n)[i].len() == n,
    decreases s.len(),
{
    if s.len() > n && i > 0 {
        let rest = pieces(s.skip(n as int), n);
        assert(pieces(s, n)[i] == rest[i - 1]);
        pieces_are_full_but_the_last(s.skip(n as int), n, i - 1);
    }
}

/// A full first piece is cut off as it stands.
pub(crate) proof fn pieces_cut_first<A>(first: Seq<A>, rest: Seq<A>, n: nat)
    requires
        n > 0,
        first.len() == n,
    ensures
        pieces(first + rest, n) == seq![first] + pieces(rest, n),
{
    let s = first + rest;
    assert(s.take(n as int) =~= first);
    assert(s.skip(n as int) =~= rest);
    if rest.len() == 0 {
        assert(s =~= first);
        assert(pieces(s, n) =~= seq![first] + pieces(rest, n));
    }
}

/// Full pieces at the front are cut off as they stand, whatever follows.
pub(crate) proof fn full_pieces_come_first<A>(full: Seq<Seq<A>>, rest: Seq<A>, n: nat)
    requires
        n > 0,
        forall|i: int| 0 <= i < full.len() ==> (#[trigger] full[i]).len() == n,
    ensures
        pieces(full.flatten() + rest, n) == full + pieces(rest, n),
    decreases full.len(),
{
    let all = full.flatten() + rest;
    if full.len() == 0 {
        assert(all =~= rest);
        assert(full + pieces(rest, n) =~= pieces(rest, n));
    } else {
        let others = full.drop_first();
        full_pieces_come_first(others, rest, n);
        assert(full[0].len() == n);
        assert(all =~= full[0] + (others.flatten() + rest));
        pieces_cut_first(full[0], others.flatten() + rest, n);
        assert(pieces(all, n) =~= full + pieces(rest, n));
    }
}

/// A list, with one more element if there is one.
pub open spec fn with_last<A>(list: Seq<A>, last: Option<A>) -> Seq<A> {
    match last {
        Some(element) => list.push(element),
        None => list,
    }
}

/// Full pieces followed by a shorter rest are the pieces of the whole.
pub(crate) proof fn full_pieces_and_rest<A>(full: Seq<Seq<A>>, rest: Seq<A>, n: nat)
    requires
        n > 0,
        rest.len() < n,
        forall|i: int| 0 <= i < full.len() ==> (#[trigger] full[i]).len() == n,
    ensures
        rest.len() == 0 ==> pieces(full.flatten() + rest, n) == full,
        rest.len() > 0 ==> pieces(full.flatten() + rest, n) == full.push(rest),
{
    full_pieces_come_first(full, rest, n);
    assert(full + pieces(rest, n) =~= with_last(
        full,
        if rest.len() == 0 {
            None
        } else {
            Some(rest)
        },
    ));
}

/// The rows of a column family are those of the first one of that name, key
/// and value bytes unchanged and in their order; without one there are none.
pub proof fn family_rows_are_those_of_the_first(db: Seq<ColumnFamily>, name: Seq<char>, i: int)
    ensures
        family_rows(db, name) is None <==> forall|j: int|
            0 <= j < db.len() ==> (#[trigger] db[j]).name@ != name,
        0 <= i < db.len() && db[i].name@ == name && (forall|j: int|
            0 <= j < i ==> (#[trigger] db[j]).name@ != name) ==> {
            let rows = family_rows(db, name);
            &&& rows is Some
            &&& rows->0.len() == db[i].rows@.len()
            &&& forall|k: int|
                0 <= k < db[i].rows@.len() ==> (#[trigger] rows->0[k]).key == db[i].rows@[k].key@
                    && rows->0[k].value == db[i].rows@[k].value@
        },
    decreases db.len(),
{
    if db.len() > 0 && db[0].name@ != name {
        let rest = db.drop_first();
        family_rows_are_those_of_the_first(rest, name, i - 1);
        if family_rows(db, name) is None {
            assert forall|j: int| 0 <= j < db.len() implies (#[trigger] db[j]).name@ != name by {
                if j > 0 {
                    assert(rest[j - 1] == db[j]);
                }
            }
        } else {
            let j: int = choose|j: int| 0 <= j < rest.len() && (#[trigger] rest[j]).name@ == name;
            assert(db[j + 1] == rest[j]);
        }
        if 0 <= i < db.len() && db[i].name@ == name && (forall|j: int|
            0 <= j < i ==> (#[trigger] db[j]).name@ != name) {
            assert(i > 0);
            assert(rest[i - 1] == db[i]);
            assert forall|j: int| 0 <= j < i - 1 implies (#[trigger] rest[j]).name@ != name by {
                assert(rest[j] == db[j + 1]);
            }
        }
    } else if db.len() > 0 {
        assert(db[0].name@ == name);
    }
}

/// A column family maps a key to the value of the last row under it, and holds
/// no key that no row has.
pub proof fn contents_are_the_last_rows(rows: Seq<RowView>, key: Seq<u8>, i: int)
    ensures
        contents(rows).contains_key(key) <==> exists|j: int|
            0 <= j < rows.len() && (#[trigger] rows[j]).key == key,
        0 <= i < rows.len() && rows[i].key == key && (forall|j: int|
            i < j < rows.len() ==> (#[trigger] rows[j]).key != key) ==> contents(rows)[key]
            == rows[i].value,
    decreases rows.len(),
{
    if 0 <= i < rows.len() && rows[i].key == key && (forall|j: int|
        i < j < rows.len() ==> (#[trigger] rows[j]).key != key) {
        last_row_put_stays(Map::empty(), rows, i);
    }
    if exists|j: int| 0 <= j < rows.len() && (#[trigger] rows[j]).key == key {
        if rows.last().key != key {
            let front = rows.drop_last();
            let j: int = choose|j: int| 0 <= j < rows.len() && (#[trigger] rows[j]).key == key;
            assert(rows[rows.len() - 1] == rows.last());
            assert(front[j].key == key);
            contents_are_the_last_rows(front, key, j);
        }
    } else {
        other_keys_stay(Map::empty(), rows, key);
    }
}

/// A key comes before another where the two first differ: it ends there, or
/// has the smaller byte.
pub proof fn keys_are_ordered_byte_by_byte(a: Seq<u8>, b: Seq<u8>)
    ensures
        key_before(a, b) <==> exists|k: int|
            0 <= k < b.len() && k <= a.len() && #[trigger] a.take(k) == b.take(k) && (k == a.len()
                || a[k] < b[k]),
    decreases a.len(),
{
    if a.len() == 0 || b.len() == 0 {
        if b.len() > 0 {
            assert(a.take(0) =~= b.take(0));
        }
    } else if a[0] != b[0] {
        assert(a.take(0) =~= b.take(0));
        if exists|k: int|
            0 <= k < b.len() && k <= a.len() && #[trigger] a.take(k) == b.take(k) && (k == a.len()
                || a[k] < b[k]) {
            let k: int = choose|k: int|
                0 <= k < b.len() && k <= a.len() && #[trigger] a.take(k) == b.take(k) && (k
                    == a.len() || a[k] < b[k]);
            if k > 0 {
                assert(a.take(k)[0] == b.take(k)[0]);
            }
        }
    } else {
        let (x, y) = (a.drop_first(), b.drop_first());
        keys_are_ordered_byte_by_byte(x, y);
        if key_before(a, b) {
            let k: int = choose|k: int|
                0 <= k < y.len() && k <= x.len() && #[trigger] x.take(k) == y.take(k) && (k
                    == x.len() || x[k] < y[k]);
            assert forall|i: int| 0 <= i < k + 1 implies a[i] == b[i] by {
                if i > 0 {
                    assert(x.take(k)[i - 1] == y.take(k)[i - 1]);
                }
            }
            assert(a.take(k + 1) =~= b.take(k + 1));
        }
        if exists|k: int|
            0 <= k < b.len() && k <= a.len() && #[trigger] a.take(k) == b.take(k) && (k == a.len()
                || a[k] < b[k]) {
            let k: int = choose|k: int|
                0 <= k < b.len() && k <= a.len() && #[trigger] a.take(k) == b.take(k) && (k
                    == a.len() || a[k] < b[k]);
            assert(k > 0);
            assert forall|i: int| 0 <= i < k - 1 implies x[i] == y[i] by {
                assert(a.take(k)[i + 1] == b.take(k)[i + 1]);
            }
            assert(x.take(k - 1) =~= y.take(k - 1));
        }
    }
}

/// A walk gives every row of a column family exactly once, and nothing else,
/// each key before those that follow it.
pub proof fn walks_give_every_row_once(
    rows: Seq<RowView>,
    family: Map<Seq<u8>, Seq<u8>>,
    key: Seq<u8>,
    value: Seq<u8>,
)
    requires
        is_walk(rows, family),
    ensures
        family.contains_key(key) && family[key] == value <==> rows.contains(
            RowView { key, value },
        ),
        forall|i: int, j: int|
            0 <= i < j < rows.len() ==> key_before(
                (#[trigger] rows[i]).key,
                (#[trigger] rows[j]).key,
            ) && rows[i].key != rows[j].key,
{
    let row = RowView { key, value };
    if family.contains_key(key) && family[key] == value {
        let i: int = choose|i: int| 0 <= i < rows.len() && #[trigger] rows[i].key == key;
        assert(rows[i] =~= row);
    }
    if rows.contains(row) {
        let i: int = choose|i: int| 0 <= i < rows.len() && rows[i] == row;
        assert(family.contains_key(rows[i].key));
    }
    assert forall|i: int, j: int| 0 <= i < j < rows.len() implies key_before(
        (#[trigger] rows[i]).key,
        (#[trigger] rows[j]).key,
    ) && rows[i].key != rows[j].key by {
        assert(key_before(rows[i].key, rows[j].key));
        key_before_is_asymmetric(rows[i].key, rows[j].key);
    }
}

/// Each piece is the stretch of the sequence that starts where the pieces
/// before it end, and there are just as many pieces as it takes.
pub proof fn pieces_are_stretches<A>(s: Seq<A>, n: nat, i: int)
    requires
        n > 0,
    ensures
        pieces(s, n).len() * n >= s.len(),
        s.len() > 0 ==> (pieces(s, n).len() - 1) * n < s.len(),
        s.len() == 0 ==> pieces(s, n).len() == 0,
        0 <= i < pieces(s, n).len() ==> 0 <= i * n < s.len() && pieces(s, n)[i] == s.subrange(
            i * n,
            if (i + 1) * n <= s.len() {
                (i + 1) * n
            } else {
                s.len() as int
            },
        ),
    decreases s.len(),
{
    let p = pieces(s, n);
    if s.len() == 0 {
    } else if s.len() <= n {
        assert(p.len() == 1);
        assert((p.len() - 1) * n == 0) by (nonlinear_arith)
            requires
                p.len() == 1,
        ;
        assert(p.len() * n == n) by (nonlinear_arith)
            requires
                p.len() == 1,
        ;
        if i == 0 {
            assert(0 * n == 0) by (nonlinear_arith);
            assert((0 + 1) * n == n) by (nonlinear_arith);
            assert(p[0] =~= s);
            assert(s.subrange(0, s.len() as int) =~= s);
        }
    } else {
        let t = s.skip(n as int);
        let q = pieces(t, n);
        pieces_are_stretches(t, n, i - 1);
        assert(p.len() == q.len() + 1);
        assert((q.len() + 1) * n == q.len() * n + n) by (nonlinear_arith);
        assert((q.len() + 1 - 1) * n == (q.len() - 1) * n + n) by (nonlinear_arith);
        assert((i - 1) * n + n == i * n) by (nonlinear_arith);
        assert((i - 1 + 1) * n + n == (i + 1) * n) by (nonlinear_arith);
        if 0 < i < p.len() {
            assert(p[i] == q[i - 1]);
            let end = if (i + 1) * n <= s.len() {
                (i + 1) * n
            } else {
                s.len() as int
            };
            assert(q[i - 1] =~= s.subrange(i * n, end));
        } else if i == 0 {
            assert(0 * n == 0) by (nonlinear_arith);
            assert((0 + 1) * n == n) by (nonlinear_arith);
            assert(p[0] =~= s.subrange(0, n as int));
        }
    }
}

/// A list with one more element has that element at its end, and is unchanged
/// otherwise.
pub proof fn with_last_appends<A>(list: Seq<A>, element: A)
    ensures
        with_last(list, Some(element)) == list + seq![element],
        with_last(list, None) == list,
{
    assert(with_last(list, Some(element)) =~= list + seq![element]);
}

} // verus!
