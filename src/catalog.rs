//! The snapshot catalog of one application and the choice of a snapshot
//! from it: the latest one, or one picked by index from operator input.
use vstd::prelude::*;

use crate::naming::{digit_value, is_digit};
use crate::restore::RemoteEntry;
use crate::text::{chars_of, seq_less};

verus! {

/// The names of the directories that listing `es` holds, in listing order.
pub open spec fn dir_names(es: Seq<RemoteEntry>) -> Seq<Seq<char>>
    decreases es.len(),
{
    if es.len() == 0 {
        Seq::empty()
    } else if es.last().is_dir {
        dir_names(es.drop_last()).push(es.last().name@)
    } else {
        dir_names(es.drop_last())
    }
}

/// Whether `names` ascend in string order (equal neighbours allowed).
pub open spec fn ascending(names: Seq<Seq<char>>) -> bool {
    forall|i: int, j: int| 0 <= i < j < names.len() ==> !seq_less(#[trigger] names[j], #[trigger] names[i])
}

pub open spec fn views_of(v: Seq<String>) -> Seq<Seq<char>> {
    v.map_values(|s: String| s@)
}

/// Relies on `slice::sort` over `String`s: a stable sort into ascending
/// order, where strings compare by their UTF-8 bytes, that is by code point.
#[verifier::external_body]
fn sort_names(v: &mut Vec<String>)
    ensures
        views_of(final(v)@).to_multiset() == views_of(old(v)@).to_multiset(),
        ascending(views_of(final(v)@)),
{
    v.sort()
}

/// The snapshot names in the listing of an application's directory: its
/// subdirectories, in ascending string order, which is time order.
pub fn catalog_names(listing: &Vec<RemoteEntry>) -> (r: Vec<String>)
    ensures
        views_of(r@).to_multiset() == dir_names(listing@).to_multiset(),
        ascending(views_of(r@)),
{
    let mut names: Vec<String> = Vec::new();
    let mut i: usize = 0;
    while i < listing.len()
        invariant
            i <= listing@.len(),
            views_of(names@) == dir_names(listing@.subrange(0, i as int)),
        decreases listing@.len() - i,
    {
        proof {
            assert(listing@.subrange(0, i + 1).drop_last() =~= listing@.subrange(0, i as int));
        }
        if listing[i].is_dir {
            let n = listing[i].name.clone();
            let ghost before = names@;
            names.push(n);
            assert(views_of(names@) =~= views_of(before).push(n@));
        }
        i += 1;
    }
    assert(listing@.subrange(0, listing@.len() as int) =~= listing@);
    sort_names(&mut names);
    names
}

/// The latest snapshot of an ascending catalog: its last name, or `None`
/// where the catalog is empty and there is nothing to restore.
pub fn select_latest(sorted: &Vec<String>) -> (r: Option<String>)
    ensures
        sorted@.len() == 0 <==> r is None,
        r matches Some(s) ==> s@ == sorted@.last()@,
{
    if sorted.len() == 0 {
        None
    } else {
        Some(sorted[sorted.len() - 1].clone())
    }
}

/// The characters that `char::is_whitespace` accepts (Unicode White_Space).
pub open spec fn is_space(c: char) -> bool {
    let u = c as u32;
    (0x9 <= u <= 0xd) || u == 0x20 || u == 0x85 || u == 0xa0 || u == 0x1680 || (0x2000 <= u
        <= 0x200a) || u == 0x2028 || u == 0x2029 || u == 0x202f || u == 0x205f || u == 0x3000
}

pub open spec fn trim_start(s: Seq<char>) -> Seq<char>
    decreases s.len(),
{
    if s.len() > 0 && is_space(s[0]) {
        trim_start(s.subrange(1, s.len() as int))
    } else {
        s
    }
}

pub open spec fn trim_end(s: Seq<char>) -> Seq<char>
    decreases s.len(),
{
    if s.len() > 0 && is_space(s.last()) {
        trim_end(s.drop_last())
    } else {
        s
    }
}

/// `s` without leading and trailing white space.
pub open spec fn trimmed(s: Seq<char>) -> Seq<char> {
    trim_end(trim_start(s))
}

/// The number that the decimal digits `d` spell.
pub open spec fn digits_value(d: Seq<char>) -> nat
    decreases d.len(),
{
    if d.len() == 0 {
        0
    } else {
        (10 * digits_value(d.drop_last()) + digit_value(d.last())) as nat
    }
}

pub open spec fn all_digits(d: Seq<char>) -> bool {
    forall|i: int| 0 <= i < d.len() ==> is_digit(#[trigger] d[i])
}

/// The digits of an unsigned decimal: `t` without one leading `+`.
pub open spec fn unsigned_digits(t: Seq<char>) -> Seq<char> {
    if t.len() > 0 && t[0] == '+' {
        t.subrange(1, t.len() as int)
    } else {
        t
    }
}

/// The index that operator input `s` gives: after trimming white space, an
/// optional `+` and at least one decimal digit, with a value that fits in
/// `usize`.
pub open spec fn index_of_input(s: Seq<char>) -> Option<nat> {
    let d = unsigned_digits(trimmed(s));
    if d.len() > 0 && all_digits(d) && digits_value(d) <= usize::MAX {
        Some(digits_value(d))
    } else {
        None
    }
}

proof fn lemma_digits_value_grows(d: Seq<char>, i: int, j: int)
    requires
        0 <= i <= j <= d.len(),
        all_digits(d),
    ensures
        digits_value(d.subrange(0, i)) <= digits_value(d.subrange(0, j)),
    decreases j - i,
{
    if i < j {
        lemma_digits_value_grows(d, i, j - 1);
        assert(d.subrange(0, j).drop_last() =~= d.subrange(0, j - 1));
        assert(is_digit(d[j - 1]));
    }
}

fn trim_chars(cs: &Vec<char>) -> (r: Vec<char>)
    ensures
        r@ == trimmed(cs@),
{
    let n = cs.len();
    let mut a: usize = 0;
    assert(cs@.subrange(0, n as int) =~= cs@);
    while a < n && is_space_char(cs[a])
        invariant
            n == cs@.len(),
            a <= n,
            trim_start(cs@) == trim_start(cs@.subrange(a as int, n as int)),
        decreases n - a,
    {
        proof {
            let t = cs@.subrange(a as int, n as int);
            assert(t.subrange(1, t.len() as int) =~= cs@.subrange(a + 1, n as int));
        }
        a += 1;
    }
    let mut b: usize = n;
    let ghost t = cs@.subrange(a as int, n as int);
    assert(trim_start(cs@) == t);
    while b > a && is_space_char(cs[b - 1])
        invariant
            n == cs@.len(),
            a <= b <= n,
            t == cs@.subrange(a as int, n as int),
            trim_end(t) == trim_end(cs@.subrange(a as int, b as int)),
        decreases b - a,
    {
        proof {
            assert(cs@.subrange(a as int, b as int).drop_last() =~= cs@.subrange(a as int, b - 1));
        }
        b -= 1;
    }
    let mut out: Vec<char> = Vec::new();
    let mut k: usize = a;
    while k < b
        invariant
            n == cs@.len(),
            a <= k <= b <= n,
            out@ == cs@.subrange(a as int, k as int),
        decreases b - k,
    {
        out.push(cs[k]);
        k += 1;
        assert(out@ =~= cs@.subrange(a as int, k as int));
    }
    out
}

fn is_space_char(c: char) -> (r: bool)
    ensures
        r == is_space(c),
{
    let u = c as u32;
    (0x9 <= u && u <= 0xd) || u == 0x20 || u == 0x85 || u == 0xa0 || u == 0x1680 || (0x2000 <= u
        && u <= 0x200a) || u == 0x2028 || u == 0x2029 || u == 0x202f || u == 0x205f || u == 0x3000
}

/// The index that a line of operator input gives, as `str::trim` followed
/// by `usize`'s `FromStr` reads it.
pub fn parse_index(input: &str) -> (r: Option<usize>)
    ensures
        r matches Some(i) ==> index_of_input(input@) == Some(i as nat),
        r is None ==> index_of_input(input@) is None,
{
    let cs = chars_of(input);
    let t = trim_chars(&cs);
    assert(t@ == trimmed(input@));
    let mut start: usize = 0;
    if t.len() > 0 && t[0] == '+' {
        start = 1;
    }
    let ghost d = unsigned_digits(t@);
    assert(d =~= t@.subrange(start as int, t@.len() as int));
    if start >= t.len() {
        return None;
    }
    let mut v: usize = 0;
    let mut i: usize = start;
    assert(d.subrange(0, 0) =~= Seq::<char>::empty());
    while i < t.len()
        invariant
            start <= i <= t@.len(),
            t@ == trimmed(input@),
            d == unsigned_digits(t@),
            d == t@.subrange(start as int, t@.len() as int),
            forall|j: int| 0 <= j < i - start ==> is_digit(#[trigger] d[j]),
            v as nat == digits_value(d.subrange(0, i - start)),
        decreases t@.len() - i,
    {
        let c = t[i];
        if !('0' <= c && c <= '9') {
            assert(!is_digit(d[i - start]));
            assert(!all_digits(d));
            return None;
        }
        let k = (c as u32 - '0' as u32) as usize;
        proof {
            assert(d.subrange(0, i + 1 - start).drop_last() =~= d.subrange(0, i - start));
            assert(d[i - start] == c);
        }
        if v > (usize::MAX - k) / 10 {
            proof {
                assert(v * 10 + k > usize::MAX) by (nonlinear_arith)
                    requires
                        v > (usize::MAX - k) / 10,
                        k <= 9,
                ;
                if all_digits(d) {
                    lemma_digits_value_grows(d, i + 1 - start, d.len() as int);
                    assert(d.subrange(0, d.len() as int) =~= d);
                }
            }
            return None;
        }
        proof {
            assert(v * 10 + k <= usize::MAX) by (nonlinear_arith)
                requires
                    v <= (usize::MAX - k) / 10,
                    k <= 9,
            ;
        }
        v = v * 10 + k;
        i += 1;
    }
    assert(d.subrange(0, d.len() as int) =~= d);
    Some(v)
}


/// The operator's input named no snapshot of the catalog.
#[derive(Clone, Copy, Debug, PartialEq, Eq, Structural)]
pub struct InvalidIndex;

/// The snapshot that a line of operator input picks from an ascending
/// catalog shown with indices from 0: the input must read as an index below
/// the catalog's length, else the choice fails, with no second try.
pub fn select_interactive(sorted: &Vec<String>, input: &str) -> (r: Result<String, InvalidIndex>)
    ensures
        match index_of_input(input@) {
            Some(i) => if i < sorted@.len() {
                r matches Ok(s) && s@ == sorted@[i as int]@
            } else {
                r is Err
            },
            None => r is Err,
        },
{
    match parse_index(input) {
        Some(i) => {
            if i < sorted.len() {
                Ok(sorted[i].clone())
            } else {
                Err(InvalidIndex)
            }
        },
        None => Err(InvalidIndex),
    }
}

/// Whether application id `n` is wanted: not ignored, and equal to the one
/// asked for where one is.
pub open spec fn id_wanted(n: Seq<char>, filter: Option<Seq<char>>, ignore: Seq<Seq<char>>) -> bool {
    !ignore.contains(n) && match filter {
        Some(f) => f == n,
        None => true,
    }
}

/// The wanted ids of `names`, in order.
pub open spec fn wanted_ids(names: Seq<Seq<char>>, filter: Option<Seq<char>>, ignore: Seq<Seq<char>>) -> Seq<
    Seq<char>,
>
    decreases names.len(),
{
    if names.len() == 0 {
        Seq::empty()
    } else if id_wanted(names.last(), filter, ignore) {
        wanted_ids(names.drop_last(), filter, ignore).push(names.last())
    } else {
        wanted_ids(names.drop_last(), filter, ignore)
    }
}

pub open spec fn opt_view(filter: Option<&str>) -> Option<Seq<char>> {
    match filter {
        Some(f) => Some(f@),
        None => None,
    }
}

fn contains_name(v: &Vec<String>, n: &String) -> (r: bool)
    ensures
        r == views_of(v@).contains(n@),
{
    let mut i: usize = 0;
    while i < v.len()
        invariant
            i <= v@.len(),
            forall|j: int| 0 <= j < i ==> v@[j]@ != n@,
        decreases v@.len() - i,
    {
        if v[i] == *n {
            assert(views_of(v@)[i as int] == n@);
            return true;
        }
        i += 1;
    }
    proof {
        if views_of(v@).contains(n@) {
            let k = choose|k: int| 0 <= k < views_of(v@).len() && views_of(v@)[k] == n@;
            assert(v@[k]@ == n@);
        }
    }
    false
}

/// The application ids among the entry names of the local application
/// directory that are wanted: those not in `ignore`, and only `filter`
/// where it is given; in their order.
pub fn collect_game_ids(names: &Vec<String>, filter: Option<&str>, ignore: &Vec<String>) -> (r: Vec<
    String,
>)
    ensures
        views_of(r@) == wanted_ids(views_of(names@), opt_view(filter), views_of(ignore@)),
{
    let wanted: Option<String> = match filter {
        Some(f) => Some(f.to_string()),
        None => None,
    };
    let ghost fv = opt_view(filter);
    let ghost all = views_of(names@);
    let mut out: Vec<String> = Vec::new();
    let mut i: usize = 0;
    while i < names.len()
        invariant
            i <= names@.len(),
            all == views_of(names@),
            fv == opt_view(filter),
            wanted matches Some(w) ==> fv == Some(w@),
            wanted is None ==> fv is None,
            views_of(out@) == wanted_ids(all.subrange(0, i as int), fv, views_of(ignore@)),
        decreases names@.len() - i,
    {
        proof {
            assert(all.subrange(0, i + 1).drop_last() =~= all.subrange(0, i as int));
            assert(all.subrange(0, i + 1).last() == names@[i as int]@);
        }
        let n = &names[i];
        let ignored = contains_name(ignore, n);
        let matches_filter = match &wanted {
            Some(w) => *w == *n,
            None => true,
        };
        if !ignored && matches_filter {
            let ghost before = out@;
            out.push(n.clone());
            assert(views_of(out@) =~= views_of(before).push(n@));
        }
        i += 1;
    }
    assert(all.subrange(0, names@.len() as int) =~= all);
    out
}

} // verus!
