//! A build profile and the paths it keeps its state under.
//!
//! A profile is identified by its name. Everything it owns lives under
//! well-known directories derived from that name; the path helpers here pin
//! those locations down. The selection helpers decide which files in the
//! sources directory belong to the profile's manifest and which directory
//! entries are its build scripts; reading the directories themselves is the
//! caller's work.

use vstd::multiset::Multiset;
use vstd::prelude::*;

use crate::manifest::Descriptor;

verus! {

/// A named build profile.
#[derive(Debug)]
pub struct Profile {
    pub name: String,
}

impl Profile {
    pub fn new(name: String) -> (p: Profile)
        ensures
            p.name@ == name@,
    {
        Profile { name }
    }

    /// The profile's scratch directory.
    pub fn tmp_dir(&self) -> (r: String)
        ensures
            r@ == "/tmp/lfstage/"@ + self.name@,
    {
        let mut r = "/tmp/lfstage/".to_owned();
        r.append(self.name.as_str());
        r
    }

    /// Where the name of the stage file under construction is recorded.
    pub fn stagefilename_file(&self) -> (r: String)
        ensures
            r@ == "/tmp/lfstage/"@ + self.name@ + "/stagefilename"@,
    {
        let mut r = self.tmp_dir();
        r.append("/stagefilename");
        r
    }

    /// Where the running build's timestamp is recorded.
    pub fn timestamp_file(&self) -> (r: String)
        ensures
            r@ == "/tmp/lfstage/"@ + self.name@ + "/timestamp"@,
    {
        let mut r = self.tmp_dir();
        r.append("/timestamp");
        r
    }

    /// The profile's static data: environments, scripts, the manifest.
    pub fn profile_lib_dir(&self) -> (r: String)
        ensures
            r@ == "/var/lib/lfstage/profiles/"@ + self.name@,
    {
        let mut r = "/var/lib/lfstage/profiles/".to_owned();
        r.append(self.name.as_str());
        r
    }

    /// The profile's cached build products.
    pub fn profile_cache_dir(&self) -> (r: String)
        ensures
            r@ == "/var/cache/lfstage/profiles/"@ + self.name@,
    {
        let mut r = "/var/cache/lfstage/profiles/".to_owned();
        r.append(self.name.as_str());
        r
    }

    /// The profile's environment files.
    pub fn envs_dir(&self) -> (r: String)
        ensures
            r@ == "/var/lib/lfstage/profiles/"@ + self.name@ + "/envs"@,
    {
        let mut r = self.profile_lib_dir();
        r.append("/envs");
        r
    }

    /// The profile's build scripts.
    pub fn scripts_dir(&self) -> (r: String)
        ensures
            r@ == "/var/lib/lfstage/profiles/"@ + self.name@ + "/scripts"@,
    {
        let mut r = self.profile_lib_dir();
        r.append("/scripts");
        r
    }

    /// Where finished stage files are kept.
    pub fn stages_dir(&self) -> (r: String)
        ensures
            r@ == "/var/cache/lfstage/profiles/"@ + self.name@ + "/stages"@,
    {
        let mut r = self.profile_cache_dir();
        r.append("/stages");
        r
    }

    /// Where fetched sources are cached — the destination directory of a
    /// download run.
    pub fn sources_dir(&self) -> (r: String)
        ensures
            r@ == "/var/cache/lfstage/profiles/"@ + self.name@ + "/sources"@,
    {
        let mut r = self.profile_cache_dir();
        r.append("/sources");
        r
    }

    /// The profile's manifest of remote sources.
    pub fn sources_file(&self) -> (r: String)
        ensures
            r@ == "/var/lib/lfstage/profiles/"@ + self.name@ + "/sources"@,
    {
        let mut r = self.profile_lib_dir();
        r.append("/sources");
        r
    }
}

/// The destination names that the profile's manifest registers, in manifest
/// order.
pub fn registered_destinations(dls: &Vec<Descriptor>) -> (r: Vec<String>)
    ensures
        r@.len() == dls@.len(),
        forall|i: int| 0 <= i < dls@.len() ==> (#[trigger] r@[i])@ == dls@[i].dest@,
{
    let mut r: Vec<String> = Vec::new();
    let mut i: usize = 0;
    while i < dls.len()
        invariant
            i <= dls@.len(),
            r@.len() == i,
            forall|j: int| 0 <= j < i ==> (#[trigger] r@[j])@ == dls@[j].dest@,
        decreases dls@.len() - i,
    {
        r.push(dls[i].dest.clone());
        i += 1;
    }
    r
}

/// Some string of `rs` reads `x`.
pub open spec fn contains_str(rs: Seq<Seq<char>>, x: Seq<char>) -> bool {
    exists|i: int| 0 <= i < rs.len() && rs[i] == x
}

fn contains_string(rs: &Vec<String>, x: &String) -> (r: bool)
    ensures
        r == contains_str(rs.deep_view(), x@),
{
    let mut i: usize = 0;
    while i < rs.len()
        invariant
            i <= rs@.len(),
            forall|j: int| 0 <= j < i ==> rs.deep_view()[j] != x@,
        decreases rs@.len() - i,
    {
        if rs[i] == *x {
            proof {
                assert(rs.deep_view()[i as int] == x@);
            }
            return true;
        }
        i += 1;
    }
    false
}

/// The file names among `names` that the manifest registers, in their given
/// order.
pub open spec fn filter_registered(names: Seq<Seq<char>>, registered: Seq<Seq<char>>) -> Seq<
    Seq<char>,
>
    decreases names.len(),
{
    if names.len() == 0 {
        seq![]
    } else {
        let rest = filter_registered(names.drop_first(), registered);
        if contains_str(registered, names[0]) {
            seq![names[0]] + rest
        } else {
            rest
        }
    }
}

/// Of the file names found in the sources directory, keeps exactly those that
/// the manifest registers as destinations, in their given order: only
/// registered sources are handed on to a build.
pub fn select_registered(names: &Vec<String>, registered: &Vec<String>) -> (r: Vec<String>)
    ensures
        r.deep_view() == filter_registered(names.deep_view(), registered.deep_view()),
{
    let ghost all = names.deep_view();
    let ghost regs = registered.deep_view();
    let mut r: Vec<String> = Vec::new();
    let mut i: usize = 0;
    proof {
        assert(all.skip(0) =~= all);
        assert(r.deep_view() + filter_registered(all, regs) =~= filter_registered(all, regs));
    }
    while i < names.len()
        invariant
            all == names.deep_view(),
            regs == registered.deep_view(),
            i <= all.len(),
            filter_registered(all, regs) == r.deep_view() + filter_registered(
                all.skip(i as int),
                regs,
            ),
        decreases all.len() - i,
    {
        proof {
            assert(all.skip(i as int)[0] == all[i as int]);
            assert(all.skip(i as int).drop_first() =~= all.skip(i + 1));
        }
        if contains_string(registered, &names[i]) {
            let ghost old_r = r;
            r.push(names[i].clone());
            proof {
                assert(r.deep_view() =~= old_r.deep_view().push(all[i as int]));
                assert(old_r.deep_view() + (seq![all[i as int]] + filter_registered(
                    all.skip(i + 1),
                    regs,
                )) =~= r.deep_view() + filter_registered(all.skip(i + 1), regs));
            }
        }
        i += 1;
    }
    proof {
        assert(filter_registered(all.skip(all.len() as int), regs) =~= Seq::<Seq<char>>::empty());
        assert(r.deep_view() + Seq::<Seq<char>>::empty() =~= r.deep_view());
    }
    r
}

/// An ASCII decimal digit.
pub open spec fn is_digit_char(c: char) -> bool {
    '0' <= c && c <= '9'
}

/// Every character is a digit.
pub open spec fn all_digits(s: Seq<char>) -> bool {
    forall|i: int| 0 <= i < s.len() ==> is_digit_char(#[trigger] s[i])
}

/// The number the digit string spells, most significant digit first.
pub open spec fn digits_val(s: Seq<char>) -> int
    decreases s.len(),
{
    if s.len() == 0 {
        0
    } else {
        digits_val(s.drop_last()) * 10 + (s[s.len() - 1] as int - '0' as int)
    }
}

/// What the digit prefix parses to as an unsigned 32-bit number: one optional
/// leading `+`, then at least one digit, spelling a value that fits.
pub open spec fn parse_u32_spec(s: Seq<char>) -> Option<u32> {
    let t = if s.len() > 0 && s[0] == '+' {
        s.drop_first()
    } else {
        s
    };
    if t.len() > 0 && all_digits(t) && digits_val(t) <= u32::MAX {
        Some(digits_val(t) as u32)
    } else {
        None
    }
}

proof fn lemma_digits_val_nonneg(s: Seq<char>)
    requires
        all_digits(s),
    ensures
        digits_val(s) >= 0,
    decreases s.len(),
{
    if s.len() > 0 {
        assert(all_digits(s.drop_last()));
        lemma_digits_val_nonneg(s.drop_last());
    }
}

proof fn lemma_digits_val_prefix(s: Seq<char>, j: int)
    requires
        all_digits(s),
        0 <= j <= s.len(),
    ensures
        digits_val(s.take(j)) <= digits_val(s),
    decreases s.len(),
{
    if j == s.len() {
        assert(s.take(j) =~= s);
    } else {
        assert(all_digits(s.drop_last()));
        assert(s.take(j) =~= s.drop_last().take(j));
        lemma_digits_val_prefix(s.drop_last(), j);
        lemma_digits_val_nonneg(s.drop_last());
    }
}

fn parse_u32(s: &str) -> (r: Option<u32>)
    ensures
        r == parse_u32_spec(s@),
{
    let n = s.unicode_len();
    let start: usize = if n > 0 && s.get_char(0) == '+' {
        1
    } else {
        0
    };
    let ghost t = if s@.len() > 0 && s@[0] == '+' {
        s@.drop_first()
    } else {
        s@
    };
    proof {
        assert(t =~= s@.skip(start as int));
        assert(t.take(0) =~= Seq::<char>::empty());
    }
    if start == n {
        return None;
    }
    let mut val: u64 = 0;
    let mut i: usize = start;
    while i < n
        invariant
            n == s@.len(),
            start <= i <= n,
            start < n,
            t == s@.skip(start as int),
            t == (if s@.len() > 0 && s@[0] == '+' {
                s@.drop_first()
            } else {
                s@
            }),
            all_digits(t.take(i - start)),
            val <= u32::MAX as u64,
            val as int == digits_val(t.take(i - start)),
        decreases n - i,
    {
        let c = s.get_char(i);
        if c < '0' || c > '9' {
            proof {
                assert(t[i - start] == c);
                assert(!all_digits(t));
            }
            return None;
        }
        let d = (c as u32) - 48;
        proof {
            assert(t.take(i - start + 1).drop_last() =~= t.take(i - start));
            assert(t.take(i - start + 1)[i - start] == c);
            assert(all_digits(t.take(i - start + 1)));
            assert(d as int == c as int - '0' as int);
            assert(digits_val(t.take(i - start + 1)) == digits_val(t.take(i - start)) * 10 + (
            c as int - '0' as int));
        }
        val = val * 10 + (d as u64);
        i += 1;
        if val > u32::MAX as u64 {
            proof {
                assert(val as int == digits_val(t.take(i - start)));
                if all_digits(t) {
                    lemma_digits_val_prefix(t, i - start);
                    assert(digits_val(t) >= digits_val(t.take(i - start)));
                }
                assert(parse_u32_spec(s@) is None);
            }
            return None;
        }
    }
    proof {
        assert(t.take(n - start) =~= t);
    }
    Some(val as u32)
}

/// The position of the first `-` at or after `i`, if any.
pub open spec fn first_dash_from(name: Seq<char>, i: int) -> Option<int>
    decreases name.len() - i
        when 0 <= i
{
    if i >= name.len() {
        None
    } else if name[i] == '-' {
        Some(i)
    } else {
        first_dash_from(name, i + 1)
    }
}

/// The ordering key of a build-script name: the value of what stands before
/// its first `-`, read as an unsigned 32-bit number; a name without a `-`, or
/// whose prefix is no such number, has no key.
pub open spec fn script_key(name: Seq<char>) -> Option<u32> {
    match first_dash_from(name, 0) {
        Some(i) => parse_u32_spec(name.take(i)),
        None => None,
    }
}

fn script_key_exec(name: &str) -> (r: Option<u32>)
    ensures
        r == script_key(name@),
{
    let n = name.unicode_len();
    let mut i: usize = 0;
    while i < n
        invariant
            n == name@.len(),
            i <= n,
            first_dash_from(name@, 0) == first_dash_from(name@, i as int),
        decreases n - i,
    {
        if name.get_char(i) == '-' {
            let prefix = name.substring_char(0, i);
            proof {
                assert(prefix@ =~= name@.take(i as int));
            }
            return parse_u32(prefix);
        }
        i += 1;
    }
    None
}

/// Keys order scripts: a keyless script comes first, then by numeric key.
pub open spec fn key_le(a: Option<u32>, b: Option<u32>) -> bool {
    match (a, b) {
        (Option::None, _) => true,
        (Option::Some(_), Option::None) => false,
        (Option::Some(x), Option::Some(y)) => x <= y,
    }
}

fn key_le_exec(a: Option<u32>, b: Option<u32>) -> (r: bool)
    ensures
        r == key_le(a, b),
{
    match (a, b) {
        (Option::None, _) => true,
        (Option::Some(_), Option::None) => false,
        (Option::Some(x), Option::Some(y)) => x <= y,
    }
}

/// A build-script name: each of its first two characters (as far as it has
/// them) is a digit.
pub open spec fn digit_prefixed(name: Seq<char>) -> bool {
    forall|i: int| 0 <= i < 2 && i < name.len() ==> is_digit_char(#[trigger] name[i])
}

fn digit_prefixed_exec(name: &str) -> (r: bool)
    ensures
        r == digit_prefixed(name@),
{
    let n = name.unicode_len();
    if n >= 1 {
        let c = name.get_char(0);
        if c < '0' || c > '9' {
            return false;
        }
    }
    if n >= 2 {
        let c = name.get_char(1);
        if c < '0' || c > '9' {
            return false;
        }
    }
    true
}

/// The script names among the directory's entries, in their given order.
pub open spec fn filter_scripts(names: Seq<Seq<char>>) -> Seq<Seq<char>>
    decreases names.len(),
{
    if names.len() == 0 {
        seq![]
    } else {
        let rest = filter_scripts(names.drop_first());
        if digit_prefixed(names[0]) {
            seq![names[0]] + rest
        } else {
            rest
        }
    }
}

proof fn lemma_filter_scripts_snoc(s: Seq<Seq<char>>, x: Seq<char>)
    ensures
        filter_scripts(s.push(x)) == filter_scripts(s) + (if digit_prefixed(x) {
            seq![x]
        } else {
            Seq::<Seq<char>>::empty()
        }),
    decreases s.len(),
{
    let kept = if digit_prefixed(x) {
        seq![x]
    } else {
        Seq::<Seq<char>>::empty()
    };
    if s.len() == 0 {
        assert(s.push(x).drop_first() =~= s);
        assert(s.push(x)[0] == x);
        assert(filter_scripts(s.push(x)) =~= filter_scripts(s) + kept);
    } else {
        assert(s.push(x)[0] == s[0]);
        assert(s.push(x).drop_first() =~= s.drop_first().push(x));
        lemma_filter_scripts_snoc(s.drop_first(), x);
        if digit_prefixed(s[0]) {
            assert(seq![s[0]] + (filter_scripts(s.drop_first()) + kept) =~= (seq![s[0]]
                + filter_scripts(s.drop_first())) + kept);
        }
    }
}

/// The names are ordered by their script keys.
pub open spec fn keys_sorted(s: Seq<Seq<char>>) -> bool {
    forall|i: int, j: int|
        0 <= i < j < s.len() ==> key_le(script_key(#[trigger] s[i]), script_key(#[trigger] s[j]))
}

/// Where a stable by-key insertion puts `x`: past every leading name whose
/// key is at most its own, so that names with equal keys keep their given
/// order.
pub open spec fn insert_sorted_spec(s: Seq<Seq<char>>, x: Seq<char>) -> Seq<Seq<char>>
    decreases s.len(),
{
    if s.len() == 0 {
        seq![x]
    } else if key_le(script_key(s[0]), script_key(x)) {
        seq![s[0]] + insert_sorted_spec(s.drop_first(), x)
    } else {
        seq![x] + s
    }
}

/// The names stably sorted by their script keys: each name in turn is
/// inserted after the names whose keys are at most its own.
pub open spec fn stable_sorted(s: Seq<Seq<char>>) -> Seq<Seq<char>>
    decreases s.len(),
{
    if s.len() == 0 {
        seq![]
    } else {
        insert_sorted_spec(stable_sorted(s.drop_last()), s.last())
    }
}

proof fn lemma_insert_spec_at(s: Seq<Seq<char>>, x: Seq<char>, j: int)
    requires
        0 <= j <= s.len(),
        forall|t: int| 0 <= t < j ==> key_le(script_key(#[trigger] s[t]), script_key(x)),
        j < s.len() ==> !key_le(script_key(s[j]), script_key(x)),
    ensures
        insert_sorted_spec(s, x) == s.take(j) + seq![x] + s.skip(j),
    decreases j,
{
    if j == 0 {
        if s.len() == 0 {
            assert(insert_sorted_spec(s, x) =~= s.take(0) + seq![x] + s.skip(0));
        } else {
            assert(s.take(0) + seq![x] + s.skip(0) =~= seq![x] + s);
        }
    } else {
        let rest = s.drop_first();
        assert(forall|t: int|
            0 <= t < j - 1 ==> #[trigger] rest[t] == s[t + 1]);
        lemma_insert_spec_at(rest, x, j - 1);
        assert(seq![s[0]] + (rest.take(j - 1) + seq![x] + rest.skip(j - 1)) =~= s.take(j)
            + seq![x] + s.skip(j));
    }
}

fn insert_by_key(r: &mut Vec<String>, x: String)
    requires
        keys_sorted(old(r).deep_view()),
    ensures
        final(r).deep_view() == insert_sorted_spec(old(r).deep_view(), x@),
        keys_sorted(final(r).deep_view()),
        final(r).deep_view().to_multiset() == old(r).deep_view().to_multiset().insert(x@),
{
    broadcast use vstd::seq_lib::to_multiset_insert;

    let k = script_key_exec(x.as_str());
    let mut j: usize = 0;
    while j < r.len() && key_le_exec(script_key_exec(r[j].as_str()), k)
        invariant
            *r == *old(r),
            j <= r@.len(),
            k == script_key(x@),
            forall|t: int|
                0 <= t < j ==> key_le(script_key(#[trigger] r.deep_view()[t]), script_key(x@)),
        decreases r@.len() - j,
    {
        proof {
            assert(r.deep_view()[j as int] == r@[j as int]@);
        }
        j += 1;
    }
    let ghost before = r.deep_view();
    proof {
        if j < r@.len() {
            assert(!key_le(script_key(before[j as int]), script_key(x@)));
        }
        assert forall|t: int| j <= t < before.len() implies !key_le(
            script_key(#[trigger] before[t]),
            script_key(x@),
        ) by {
            if t > j {
                assert(key_le(script_key(before[j as int]), script_key(before[t])));
            }
        }
    }
    r.insert(j, x);
    proof {
        assert(r.deep_view() =~= before.insert(j as int, x@));
        assert(r.deep_view().to_multiset() == before.to_multiset().insert(x@));
        lemma_insert_spec_at(before, x@, j as int);
        assert(before.insert(j as int, x@) =~= before.take(j as int) + seq![x@] + before.skip(
            j as int,
        ));
        let after = r.deep_view();
        assert forall|a: int, b: int| 0 <= a < b < after.len() implies key_le(
            script_key(#[trigger] after[a]),
            script_key(#[trigger] after[b]),
        ) by {
            assert(forall|t: int| 0 <= t < j ==> #[trigger] after[t] == before[t]);
            assert(forall|t: int|
                j < t < after.len() ==> #[trigger] after[t] == before[t - 1]);
            assert(after[j as int] == x@);
        }
    }
}

/// Of the file names found in the scripts directory, keeps exactly the
/// build-script names (their first two characters are digits) and hands them
/// back stably ordered by their numeric key — the order the build runs them
/// in. A keyless script sorts first, and names with equal keys keep their
/// given order.
pub fn select_build_scripts(names: &Vec<String>) -> (r: Vec<String>)
    ensures
        r.deep_view() == stable_sorted(filter_scripts(names.deep_view())),
        keys_sorted(r.deep_view()),
        r.deep_view().to_multiset() == filter_scripts(names.deep_view()).to_multiset(),
{
    broadcast use vstd::multiset::group_multiset_axioms;
    broadcast use vstd::seq_lib::group_to_multiset_ensures;

    let ghost all = names.deep_view();
    let mut r: Vec<String> = Vec::new();
    let mut i: usize = 0;
    proof {
        assert(all.take(0) =~= Seq::<Seq<char>>::empty());
        assert(r.deep_view() =~= Seq::<Seq<char>>::empty());
    }
    while i < names.len()
        invariant
            all == names.deep_view(),
            i <= all.len(),
            keys_sorted(r.deep_view()),
            r.deep_view() == stable_sorted(filter_scripts(all.take(i as int))),
            r.deep_view().to_multiset() == filter_scripts(all.take(i as int)).to_multiset(),
        decreases all.len() - i,
    {
        let ghost done = filter_scripts(all.take(i as int));
        proof {
            assert(all.take(i + 1) =~= all.take(i as int).push(all[i as int]));
            lemma_filter_scripts_snoc(all.take(i as int), all[i as int]);
        }
        if digit_prefixed_exec(names[i].as_str()) {
            let ghost before = r.deep_view();
            let ghost x = all[i as int];
            proof {
                assert(filter_scripts(all.take(i + 1)) =~= done.push(x));
                assert(done.push(x).drop_last() =~= done);
                assert(stable_sorted(done.push(x)) == insert_sorted_spec(stable_sorted(done), x));
                vstd::seq_lib::to_multiset_build(done, x);
            }
            insert_by_key(&mut r, names[i].clone());
        } else {
            proof {
                assert(filter_scripts(all.take(i + 1)) =~= done);
            }
        }
        i += 1;
    }
    proof {
        assert(all.take(all.len() as int) =~= all);
    }
    r
}

} // verus!
