//! Header collections and the two ways defaults are folded into them.
use vstd::prelude::*;
use vstd::set_lib::lemma_len_subset;
use vstd::set_lib::lemma_len_union;

verus! {

#[verifier::external_type_specification]
#[verifier::external_body]
#[verifier::reject_recursive_types(T)]
pub struct ExHeaderMap<T>(http::HeaderMap<T>);

/// Declared because `http::HeaderMap` stands for `HeaderMap<HeaderValue>`.
#[verifier::external_type_specification]
#[verifier::external_body]
pub struct ExHeaderValue(http::HeaderValue);

/// Below this many distinct names no `HeaderMap` refuses an insert: its
/// index table can only need to grow past its size limit from this many on.
pub const HEADER_NAME_ROOM: usize = 6554;

/// What a header map holds: each name to its values, in insertion order.
pub uninterp spec fn header_entries(m: http::HeaderMap) -> Map<Seq<char>, Seq<Seq<u8>>>;

/// A character of a lower-case header name.
pub open spec fn is_name_char(c: char) -> bool {
    ('a' <= c && c <= 'z') || ('0' <= c && c <= '9') || c == '!' || c == '"' || c == '#'
        || c == '$' || c == '%' || c == '&' || c == '\'' || c == '*' || c == '+' || c == '-'
        || c == '.' || c == '^' || c == '_' || c == '`' || c == '|' || c == '~'
}

/// A lower-case header name as `HeaderMap` stores it.
pub open spec fn is_header_name(s: Seq<char>) -> bool {
    1 <= s.len() <= 65535 && forall|i: int| 0 <= i < s.len() ==> is_name_char(#[trigger] s[i])
}

/// A byte that may stand in a header value.
pub open spec fn is_value_byte(b: u8) -> bool {
    (b >= 32 && b != 127) || b == 9
}

pub open spec fn is_header_value(v: Seq<u8>) -> bool {
    forall|i: int| 0 <= i < v.len() ==> is_value_byte(#[trigger] v[i])
}

/// The request headers `r` after the defaults `d` were merged in: a name
/// already present keeps its values, a missing one gets the first default.
pub open spec fn merged(r: Map<Seq<char>, Seq<Seq<u8>>>, d: Map<Seq<char>, Seq<Seq<u8>>>) -> Map<
    Seq<char>,
    Seq<Seq<u8>>,
> {
    Map::new(
        |k: Seq<char>| r.contains_key(k) || d.contains_key(k),
        |k: Seq<char>|
            if r.contains_key(k) {
                r[k]
            } else {
                seq![d[k][0]]
            },
    )
}

/// The defaults `c` after `d` was laid over them: each name of `d`
/// replaces the old values with the last of its own.
pub open spec fn overridden(c: Map<Seq<char>, Seq<Seq<u8>>>, d: Map<Seq<char>, Seq<Seq<u8>>>) -> Map<
    Seq<char>,
    Seq<Seq<u8>>,
> {
    Map::new(
        |k: Seq<char>| c.contains_key(k) || d.contains_key(k),
        |k: Seq<char>|
            if d.contains_key(k) {
                seq![d[k].last()]
            } else {
                c[k]
            },
    )
}

pub open spec fn no_entries() -> Map<Seq<char>, Seq<Seq<u8>>> {
    Map::empty()
}

pub open spec fn views_of(vs: Seq<Vec<u8>>) -> Seq<Seq<u8>> {
    vs.map_values(|v: Vec<u8>| v@)
}

pub open spec fn names_of(ks: Seq<String>) -> Seq<Seq<char>> {
    ks.map_values(|k: String| k@)
}

/// Relies on `HeaderMap::new`: a new map is empty.
#[verifier::external_body]
pub(crate) fn header_map_new() -> (r: http::HeaderMap)
    ensures
        header_entries(r) == no_entries(),
{
    http::HeaderMap::new()
}

/// Relies on `HeaderMap::keys`: each name once, and names are lower-case
/// `HeaderName`s with at least one valid `HeaderValue` each.
#[verifier::external_body]
pub(crate) fn header_keys(m: &http::HeaderMap) -> (r: Vec<String>)
    ensures
        names_of(r@).no_duplicates(),
        names_of(r@).to_set() == header_entries(*m).dom(),
        forall|i: int|
            0 <= i < r@.len() ==> is_header_name(#[trigger] r@[i]@) && header_entries(*m)[r@[i]@].len()
                > 0,
{
    m.keys().map(|k| k.as_str().to_string()).collect()
}

/// Relies on `HeaderName::from_lowercase` and `HeaderMap::get_all`: the
/// values stored under a name, in order; none for an absent name.
#[verifier::external_body]
pub(crate) fn header_values(m: &http::HeaderMap, name: &str) -> (r: Vec<Vec<u8>>)
    requires
        is_header_name(name@),
    ensures
        views_of(r@) == (if header_entries(*m).contains_key(name@) {
            header_entries(*m)[name@]
        } else {
            Seq::<Seq<u8>>::empty()
        }),
        forall|j: int| 0 <= j < r@.len() ==> is_header_value(#[trigger] r@[j]@),
        header_entries(*m).contains_key(name@) ==> r@.len() > 0,
{
    match http::HeaderName::from_lowercase(name.as_bytes()) {
        Ok(n) => m.get_all(&n).iter().map(|v| v.as_bytes().to_vec()).collect(),
        Err(_) => Vec::new(),
    }
}

/// Relies on `HeaderName::from_lowercase`, `HeaderValue::from_bytes` and
/// `HeaderMap::try_insert`: a valid name and value replace all values under
/// that name; anything rejected leaves the map as it was. The map refuses a
/// valid insert only at its size limit, which `HEADER_NAME_ROOM` names stay
/// below.
#[verifier::external_body]
pub(crate) fn header_insert(m: &mut http::HeaderMap, name: &str, value: &[u8]) -> (r: bool)
    ensures
        r ==> is_header_name(name@) && is_header_value(value@),
        r ==> header_entries(*final(m)) == header_entries(*old(m)).insert(name@, seq![value@]),
        !r ==> header_entries(*final(m)) == header_entries(*old(m)),
        is_header_name(name@) && is_header_value(value@) && header_entries(*old(m)).dom().len()
            < HEADER_NAME_ROOM ==> r,
{
    let n = match http::HeaderName::from_lowercase(name.as_bytes()) {
        Ok(n) => n,
        Err(_) => return false,
    };
    let v = match http::HeaderValue::from_bytes(value) {
        Ok(v) => v,
        Err(_) => return false,
    };
    m.try_insert(n, v).is_ok()
}

/// Each name holds exactly one value.
pub open spec fn single_valued(e: Map<Seq<char>, Seq<Seq<u8>>>) -> bool {
    forall|k: Seq<char>| #[trigger] e.contains_key(k) ==> e[k].len() == 1
}

/// A merge with part of the defaults keeps every request value and adds
/// only first default values.
proof fn lemma_partial_merge(
    r: Map<Seq<char>, Seq<Seq<u8>>>,
    d: Map<Seq<char>, Seq<Seq<u8>>>,
    s: Set<Seq<char>>,
)
    ensures
        forall|h: Seq<char>|
            #[trigger] r.contains_key(h) ==> merged(r, d.restrict(s)).contains_key(h) && merged(
                r,
                d.restrict(s),
            )[h] == r[h],
        forall|h: Seq<char>|
            #[trigger] merged(r, d.restrict(s)).contains_key(h) && !r.contains_key(h)
                ==> d.contains_key(h) && merged(r, d.restrict(s))[h] == seq![d[h][0]],
{
}

/// The loop step's view of the names of `ks` before index `i` and up to it.
proof fn lemma_take_step(ks: Seq<Seq<char>>, i: int)
    requires
        0 <= i < ks.len(),
    ensures
        ks.take(i + 1).to_set() == ks.take(i).to_set().insert(ks[i]),
{
    let t = ks.take(i);
    let u = ks.take(i + 1);
    assert forall|x: Seq<char>| u.to_set().contains(x) <==> t.to_set().insert(ks[i]).contains(x) by {
        if t.contains(x) {
            let j = choose|j: int| 0 <= j < t.len() && t[j] == x;
            assert(u[j] == x);
        }
        if x == ks[i] {
            assert(u[i] == x);
        }
        if u.contains(x) {
            let j = choose|j: int| 0 <= j < u.len() && u[j] == x;
            if j < i {
                assert(t[j] == x);
            }
        }
    }
    assert(u.to_set() =~= t.to_set().insert(ks[i]));
}

/// The names of a prefix of `ks` are among the names of `ks`.
proof fn lemma_prefix_names(ks: Seq<Seq<char>>, i: int)
    requires
        0 <= i <= ks.len(),
    ensures
        ks.take(i).to_set().subset_of(ks.to_set()),
{
    assert forall|x: Seq<char>| ks.take(i).to_set().contains(x) implies ks.to_set().contains(x) by {
        let j = choose|j: int| 0 <= j < i && ks.take(i)[j] == x;
        assert(ks[j] == x);
    }
}

/// A map whose names are those of `base` and some of `extra` has no more
/// names than the two together.
proof fn lemma_names_room(base: Set<Seq<char>>, part: Set<Seq<char>>, extra: Set<Seq<char>>)
    requires
        base.finite(),
        extra.finite(),
        part.subset_of(extra),
    ensures
        base.union(part).finite(),
        base.union(part).len() <= base.len() + extra.len(),
{
    lemma_len_subset(part, extra);
    lemma_len_union(base, part);
}

/// Folds the defaults `defaults` into `target`: a name that `target` already
/// holds keeps its values, a missing one receives the first default value.
/// `defaults` is only read. Returns whether every needed insert was taken;
/// the map may refuse one when it reaches its size limit, and then the
/// merge stops there.
pub fn merge_defaults(target: &mut http::HeaderMap, defaults: &http::HeaderMap) -> (ok: bool)
    ensures
        ok ==> header_entries(*final(target)) == merged(
            header_entries(*old(target)),
            header_entries(*defaults),
        ),
        forall|h: Seq<char>|
            #[trigger] header_entries(*old(target)).contains_key(h) ==> header_entries(
                *final(target),
            ).contains_key(h) && header_entries(*final(target))[h] == header_entries(
                *old(target),
            )[h],
        forall|h: Seq<char>|
            #[trigger] header_entries(*final(target)).contains_key(h) && !header_entries(
                *old(target),
            ).contains_key(h) ==> header_entries(*defaults).contains_key(h) && header_entries(
                *final(target),
            )[h] == seq![header_entries(*defaults)[h][0]],
        header_entries(*old(target)).dom().len() + header_entries(*defaults).dom().len()
            < HEADER_NAME_ROOM ==> ok,
{
    let ghost r0 = header_entries(*target);
    let ghost d = header_entries(*defaults);
    let existing = header_keys(target);
    let keys = header_keys(defaults);
    proof {
        broadcast use vstd::seq_lib::seq_to_set_is_finite;
        assert(names_of(existing@).to_set() == r0.dom());
        assert(r0.dom().finite());
        assert(d.dom().finite());
    }
    let mut i: usize = 0;
    while i < keys.len()
        invariant
            0 <= i <= keys@.len(),
            d == header_entries(*defaults),
            r0 == header_entries(*old(target)),
            r0.dom().finite(),
            d.dom().finite(),
            names_of(keys@).no_duplicates(),
            names_of(keys@).to_set() == d.dom(),
            forall|j: int|
                0 <= j < keys@.len() ==> is_header_name(#[trigger] keys@[j]@) && d[keys@[j]@].len()
                    > 0,
            header_entries(*target) == merged(r0, d.restrict(names_of(keys@).take(i as int).to_set())),
        decreases keys.len() - i,
    {
        let ghost done = names_of(keys@).take(i as int).to_set();
        let ghost next = names_of(keys@).take(i as int + 1).to_set();
        let k = keys[i].as_str();
        proof {
            assert(names_of(keys@)[i as int] == k@);
            lemma_take_step(names_of(keys@), i as int);
            assert(d.contains_key(k@));
            assert(!done.contains(k@)) by {
                if done.contains(k@) {
                    let j = choose|j: int| 0 <= j < i && names_of(keys@).take(i as int)[j] == k@;
                    assert(names_of(keys@)[j] == names_of(keys@)[i as int]);
                }
            }
        }
        let present = header_values(target, k);
        proof {
            assert(views_of(present@).len() == present@.len());
        }
        if present.len() == 0 {
            let dv = header_values(defaults, k);
            proof {
                assert(dv@[0]@ == views_of(dv@)[0]);
                assert(header_entries(*target).dom() =~= r0.dom().union(done));
                lemma_prefix_names(names_of(keys@), i as int);
                lemma_names_room(r0.dom(), done, d.dom());
            }
            let inserted = header_insert(target, k, dv[0].as_slice());
            if !inserted {
                proof {
                    lemma_partial_merge(r0, d, done);
                }
                return false;
            }
            proof {
                assert(header_entries(*target) =~= merged(r0, d.restrict(next)));
            }
        } else {
            proof {
                assert(r0.contains_key(k@));
                assert(header_entries(*target) =~= merged(r0, d.restrict(next)));
            }
        }
        i = i + 1;
    }
    proof {
        assert(names_of(keys@).take(keys@.len() as int) =~= names_of(keys@));
        assert(d.restrict(d.dom()) =~= d);
        lemma_partial_merge(r0, d, d.dom());
    }
    true
}

/// Lays `source` over `target`: each name of `source` replaces whatever
/// `target` held under it with the last value `source` gives for it.
/// Returns whether every insert was taken; the map may refuse one when it
/// reaches its size limit, and then the work stops there. Either way a map
/// with one value per name keeps that shape.
pub fn override_with(target: &mut http::HeaderMap, source: &http::HeaderMap) -> (ok: bool)
    ensures
        ok ==> header_entries(*final(target)) == overridden(
            header_entries(*old(target)),
            header_entries(*source),
        ),
        single_valued(header_entries(*old(target))) ==> single_valued(
            header_entries(*final(target)),
        ),
        header_entries(*final(target)).dom().finite(),
        header_entries(*old(target)).dom().len() + header_entries(*source).dom().len()
            < HEADER_NAME_ROOM ==> ok,
{
    let ghost c0 = header_entries(*target);
    let ghost d = header_entries(*source);
    let existing = header_keys(target);
    let keys = header_keys(source);
    proof {
        broadcast use vstd::seq_lib::seq_to_set_is_finite;
        assert(names_of(existing@).to_set() == c0.dom());
        assert(c0.dom().finite());
        assert(d.dom().finite());
    }
    let mut i: usize = 0;
    while i < keys.len()
        invariant
            0 <= i <= keys@.len(),
            d == header_entries(*source),
            c0 == header_entries(*old(target)),
            c0.dom().finite(),
            d.dom().finite(),
            names_of(keys@).no_duplicates(),
            names_of(keys@).to_set() == d.dom(),
            forall|j: int|
                0 <= j < keys@.len() ==> is_header_name(#[trigger] keys@[j]@) && d[keys@[j]@].len()
                    > 0,
            header_entries(*target) == overridden(c0, d.restrict(names_of(keys@).take(i as int).to_set())),
        decreases keys.len() - i,
    {
        let ghost done = names_of(keys@).take(i as int).to_set();
        let ghost next = names_of(keys@).take(i as int + 1).to_set();
        let k = keys[i].as_str();
        proof {
            assert(names_of(keys@)[i as int] == k@);
            lemma_take_step(names_of(keys@), i as int);
            assert(d.contains_key(k@));
        }
        let dv = header_values(source, k);
        let last = dv.len() - 1;
        proof {
            assert(dv@[last as int]@ == views_of(dv@)[last as int]);
            assert(header_entries(*target).dom() =~= c0.dom().union(done));
            lemma_prefix_names(names_of(keys@), i as int);
            lemma_names_room(c0.dom(), done, d.dom());
        }
        let inserted = header_insert(target, k, dv[last].as_slice());
        if !inserted {
            return false;
        }
        proof {
            assert(header_entries(*target) =~= overridden(c0, d.restrict(next)));
        }
        i = i + 1;
    }
    proof {
        assert(names_of(keys@).take(keys@.len() as int) =~= names_of(keys@));
        assert(d.restrict(d.dom()) =~= d);
        lemma_names_room(c0.dom(), d.dom(), d.dom());
        assert(header_entries(*target).dom() =~= c0.dom().union(d.dom()));
    }
    true
}

/// Merging the same defaults a second time changes nothing.
pub proof fn merge_twice_changes_nothing(r: Map<Seq<char>, Seq<Seq<u8>>>, d: Map<Seq<char>, Seq<Seq<u8>>>)
    ensures
        merged(merged(r, d), d) == merged(r, d),
{
    assert(merged(merged(r, d), d) =~= merged(r, d));
}

/// Through a merge, a name that the request headers `r` already hold keeps
/// its values; a name that only the defaults `d` hold takes the first
/// default value, which is the default value itself when the defaults hold
/// one value per name.
pub proof fn merge_respects_request(
    r: Map<Seq<char>, Seq<Seq<u8>>>,
    d: Map<Seq<char>, Seq<Seq<u8>>>,
    h: Seq<char>,
)
    ensures
        r.contains_key(h) ==> merged(r, d).contains_key(h) && merged(r, d)[h] == r[h],
        !r.contains_key(h) && d.contains_key(h) ==> merged(r, d).contains_key(h) && merged(
            r,
            d,
        )[h] == seq![d[h][0]],
        !r.contains_key(h) && d.contains_key(h) && single_valued(d) ==> merged(r, d)[h] == d[h],
        !r.contains_key(h) && !d.contains_key(h) ==> !merged(r, d).contains_key(h),
{
    if !r.contains_key(h) && d.contains_key(h) && single_valued(d) {
        assert(d[h] =~= seq![d[h][0]]);
    }
}

} // verus!
