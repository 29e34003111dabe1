//! Collections: splitting a sentence into words, and a table of scores with
//! the insert-or-update entry pattern.
use vstd::prelude::*;
use crate::std_text::{chars_of, is_unicode_whitespace, is_whitespace};

verus! {

/// How many characters `s` starts with before its first whitespace.
pub open spec fn word_len(s: Seq<char>) -> nat
    decreases s.len(),
{
    if s.len() == 0 || is_unicode_whitespace(s[0]) {
        0
    } else {
        1 + word_len(s.drop_first())
    }
}

pub proof fn lemma_word_len_bounds(s: Seq<char>)
    ensures
        word_len(s) <= s.len(),
        s.len() > 0 && !is_unicode_whitespace(s[0]) ==> word_len(s) >= 1,
    decreases s.len(),
{
    if s.len() > 0 && !is_unicode_whitespace(s[0]) {
        lemma_word_len_bounds(s.drop_first());
    }
}

/// The words of `s`: its maximal runs of non-whitespace characters, in
/// order, as `split_whitespace` yields them.
pub open spec fn words_spec(s: Seq<char>) -> Seq<Seq<char>>
    decreases s.len(),
{
    if s.len() == 0 {
        Seq::empty()
    } else if is_unicode_whitespace(s[0]) {
        words_spec(s.drop_first())
    } else {
        proof {
            lemma_word_len_bounds(s);
        }
        seq![s.take(word_len(s) as int)] + words_spec(s.skip(word_len(s) as int))
    }
}

proof fn lemma_word_len(s: Seq<char>, k: int)
    requires
        0 <= k <= s.len(),
        forall|j: int| 0 <= j < k ==> !is_unicode_whitespace(#[trigger] s[j]),
        k == s.len() || is_unicode_whitespace(s[k]),
    ensures
        word_len(s) == k,
    decreases k,
{
    if k > 0 {
        let t = s.drop_first();
        assert forall|j: int| 0 <= j < k - 1 implies !is_unicode_whitespace(#[trigger] t[j]) by {
            assert(t[j] == s[j + 1]);
        }
        if k < s.len() {
            assert(t[k - 1] == s[k]);
        }
        lemma_word_len(t, k - 1);
    }
}

/// Every word is a non-empty run of characters none of which is whitespace.
pub proof fn lemma_words_are_nonempty_and_unbroken(s: Seq<char>)
    ensures
        forall|i: int| 0 <= i < words_spec(s).len() ==> #[trigger] words_spec(s)[i].len() >= 1,
        forall|i: int, j: int|
            0 <= i < words_spec(s).len() && 0 <= j < words_spec(s)[i].len()
                ==> !is_unicode_whitespace(#[trigger] words_spec(s)[i][j]),
    decreases s.len(),
{
    if s.len() > 0 {
        if is_unicode_whitespace(s[0]) {
            lemma_words_are_nonempty_and_unbroken(s.drop_first());
            assert(words_spec(s) == words_spec(s.drop_first()));
        } else {
            lemma_word_len_bounds(s);
            let k = word_len(s) as int;
            let rest = s.skip(k);
            lemma_words_are_nonempty_and_unbroken(rest);
            lemma_word_is_unbroken(s);
            let w = words_spec(s);
            assert(w == seq![s.take(k)] + words_spec(rest));
            assert forall|i: int| 0 <= i < w.len() implies #[trigger] w[i].len() >= 1 by {
                if i > 0 {
                    assert(w[i] == words_spec(rest)[i - 1]);
                }
            }
            assert forall|i: int, j: int|
                0 <= i < w.len() && 0 <= j < w[i].len() implies !is_unicode_whitespace(
                #[trigger] w[i][j],
            ) by {
                if i > 0 {
                    assert(w[i] == words_spec(rest)[i - 1]);
                } else {
                    assert(w[0] == s.take(k));
                    assert(w[0][j] == s[j]);
                }
            }
        }
    }
}

/// No character of the leading word is whitespace.
proof fn lemma_word_is_unbroken(s: Seq<char>)
    ensures
        forall|j: int| 0 <= j < word_len(s) ==> !is_unicode_whitespace(#[trigger] s[j]),
    decreases s.len(),
{
    if s.len() > 0 && !is_unicode_whitespace(s[0]) {
        let t = s.drop_first();
        lemma_word_is_unbroken(t);
        lemma_word_len_bounds(t);
        assert forall|j: int| 0 <= j < word_len(s) implies !is_unicode_whitespace(#[trigger] s[j]) by {
            if j > 0 {
                assert(s[j] == t[j - 1]);
            }
        }
    }
}

/// The characters of `s` that are not whitespace, in order.
pub open spec fn without_whitespace(s: Seq<char>) -> Seq<char>
    decreases s.len(),
{
    if s.len() == 0 {
        Seq::empty()
    } else if is_unicode_whitespace(s[0]) {
        without_whitespace(s.drop_first())
    } else {
        seq![s[0]] + without_whitespace(s.drop_first())
    }
}

/// How many runs of non-whitespace characters begin in `s`, a run beginning
/// at a non-whitespace character that stands first or follows whitespace;
/// `after_space` says whether what comes before `s` counts as whitespace.
pub open spec fn runs_after(s: Seq<char>, after_space: bool) -> nat
    decreases s.len(),
{
    if s.len() == 0 {
        0
    } else {
        (if after_space && !is_unicode_whitespace(s[0]) {
            1nat
        } else {
            0nat
        }) + runs_after(s.drop_first(), is_unicode_whitespace(s[0]))
    }
}

/// How many maximal runs of non-whitespace characters `s` holds.
pub open spec fn run_count(s: Seq<char>) -> nat {
    runs_after(s, true)
}

/// The leading word stops at whitespace or at the end.
proof fn lemma_word_len_stops(s: Seq<char>)
    ensures
        word_len(s) == s.len() || is_unicode_whitespace(s[word_len(s) as int]),
    decreases s.len(),
{
    if s.len() > 0 && !is_unicode_whitespace(s[0]) {
        let t = s.drop_first();
        lemma_word_len_stops(t);
        lemma_word_len_bounds(t);
        if word_len(t) < t.len() {
            assert(s[word_len(s) as int] == t[word_len(t) as int]);
        }
    }
}

proof fn lemma_strip_prefix(s: Seq<char>, k: int)
    requires
        0 <= k <= s.len(),
        forall|j: int| 0 <= j < k ==> !is_unicode_whitespace(#[trigger] s[j]),
    ensures
        without_whitespace(s) == s.take(k) + without_whitespace(s.skip(k)),
    decreases k,
{
    if k == 0 {
        assert(s.skip(0) =~= s);
        assert(s.take(0) + without_whitespace(s) =~= without_whitespace(s));
    } else {
        let t = s.drop_first();
        assert forall|j: int| 0 <= j < k - 1 implies !is_unicode_whitespace(#[trigger] t[j]) by {
            assert(t[j] == s[j + 1]);
        }
        lemma_strip_prefix(t, k - 1);
        assert(t.skip(k - 1) =~= s.skip(k));
        assert(s.take(k) =~= seq![s[0]] + t.take(k - 1));
        assert(s.take(k) + without_whitespace(s.skip(k)) =~= seq![s[0]] + (t.take(k - 1)
            + without_whitespace(t.skip(k - 1))));
    }
}

proof fn lemma_runs_inside_word(t: Seq<char>, m: int)
    requires
        0 <= m <= t.len(),
        forall|j: int| 0 <= j < m ==> !is_unicode_whitespace(#[trigger] t[j]),
    ensures
        runs_after(t, false) == runs_after(t.skip(m), false),
    decreases m,
{
    if m == 0 {
        assert(t.skip(0) =~= t);
    } else {
        let u = t.drop_first();
        assert forall|j: int| 0 <= j < m - 1 implies !is_unicode_whitespace(#[trigger] u[j]) by {
            assert(u[j] == t[j + 1]);
        }
        lemma_runs_inside_word(u, m - 1);
        assert(u.skip(m - 1) =~= t.skip(m));
    }
}

/// The words, joined, are the text with its whitespace removed, and there is
/// one word for each maximal run of non-whitespace characters: no run is
/// dropped, split or merged with another.
pub proof fn lemma_words_cover_every_run(s: Seq<char>)
    ensures
        words_spec(s).flatten() == without_whitespace(s),
        words_spec(s).len() == run_count(s),
    decreases s.len(),
{
    if s.len() > 0 {
        if is_unicode_whitespace(s[0]) {
            lemma_words_cover_every_run(s.drop_first());
        } else {
            lemma_word_len_bounds(s);
            lemma_word_is_unbroken(s);
            lemma_word_len_stops(s);
            let k = word_len(s) as int;
            let rest = s.skip(k);
            lemma_words_cover_every_run(rest);
            let w = words_spec(s);
            assert(w == seq![s.take(k)] + words_spec(rest));
            assert(w.first() == s.take(k));
            assert(w.drop_first() =~= words_spec(rest));
            lemma_strip_prefix(s, k);
            let t = s.drop_first();
            assert forall|j: int| 0 <= j < k - 1 implies !is_unicode_whitespace(#[trigger] t[j]) by {
                assert(t[j] == s[j + 1]);
            }
            lemma_runs_inside_word(t, k - 1);
            assert(t.skip(k - 1) =~= rest);
            if rest.len() > 0 {
                assert(rest[0] == s[k]);
            }
        }
    }
}

pub open spec fn string_views(v: Seq<String>) -> Seq<Seq<char>> {
    v.map_values(|w: String| w@)
}

/// The words of a sentence, as `sentence.split_whitespace()` yields them.
pub fn words(sentence: &str) -> (r: Vec<String>)
    ensures
        string_views(r@) == words_spec(sentence@),
{
    let chars = chars_of(sentence);
    let n = chars.len();
    let ghost s = sentence@;
    let mut out: Vec<String> = Vec::new();
    let mut i: usize = 0;
    assert(s.skip(0) =~= s);
    while i < n
        invariant
            chars@ == s,
            n == s.len(),
            i <= n,
            words_spec(s) == string_views(out@) + words_spec(s.skip(i as int)),
        decreases n - i,
    {
        let c = chars[i];
        if is_whitespace(c) {
            assert(s.skip(i as int).drop_first() =~= s.skip(i + 1));
            i = i + 1;
        } else {
            let mut w = String::new();
            let mut j = i;
            while j < n && !is_whitespace(chars[j])
                invariant
                    chars@ == s,
                    n == s.len(),
                    i < j <= n || (i == j && j < n),
                    w@ == s.subrange(i as int, j as int),
                    forall|k: int| i <= k < j ==> !is_unicode_whitespace(#[trigger] s[k]),
                decreases n - j,
            {
                w.push(chars[j]);
                j = j + 1;
                assert(w@ =~= s.subrange(i as int, j as int));
            }
            proof {
                let t = s.skip(i as int);
                assert forall|k: int| 0 <= k < j - i implies !is_unicode_whitespace(
                    #[trigger] t[k],
                ) by {
                    assert(t[k] == s[i + k]);
                }
                if j < n {
                    assert(t[j - i] == s[j as int]);
                }
                lemma_word_len(t, j - i);
                assert(t.take(j - i) =~= s.subrange(i as int, j as int));
                assert(t.skip(j - i) =~= s.skip(j as int));
                assert(string_views(out@.push(w)) =~= string_views(out@).push(w@));
            }
            out.push(w);
            i = j;
        }
    }
    assert(s.skip(n as int) =~= Seq::<char>::empty());
    assert(string_views(out@) + Seq::<Seq<char>>::empty() =~= string_views(out@));
    out
}

/// The map that a list of keys and a list of values, paired up in order,
/// describe (a later pair wins over an earlier one with the same key).
pub open spec fn map_of(keys: Seq<Seq<char>>, values: Seq<i32>) -> Map<Seq<char>, i32>
    decreases keys.len(),
{
    if keys.len() == 0 || values.len() == 0 {
        Map::empty()
    } else {
        map_of(keys.drop_last(), values.drop_last()).insert(keys.last(), values.last())
    }
}

proof fn lemma_map_of_dom(keys: Seq<Seq<char>>, values: Seq<i32>, k: Seq<char>)
    requires
        keys.len() == values.len(),
    ensures
        map_of(keys, values).dom().contains(k) <==> keys.contains(k),
    decreases keys.len(),
{
    if keys.len() > 0 {
        lemma_map_of_dom(keys.drop_last(), values.drop_last(), k);
        if keys.drop_last().contains(k) {
            let i = choose|i: int| 0 <= i < keys.drop_last().len() && keys.drop_last()[i] == k;
            assert(keys[i] == k);
        }
        if keys.contains(k) && k != keys.last() {
            let i = choose|i: int| 0 <= i < keys.len() && keys[i] == k;
            assert(keys.drop_last()[i] == k);
        }
    }
}

proof fn lemma_map_of_index(keys: Seq<Seq<char>>, values: Seq<i32>, i: int)
    requires
        keys.len() == values.len(),
        keys.no_duplicates(),
        0 <= i < keys.len(),
    ensures
        map_of(keys, values).dom().contains(keys[i]),
        map_of(keys, values)[keys[i]] == values[i],
    decreases keys.len(),
{
    lemma_map_of_dom(keys, values, keys[i]);
    if i < keys.len() - 1 {
        let ks = keys.drop_last();
        assert(ks[i] == keys[i]);
        assert(keys[keys.len() - 1] != keys[i]);
        lemma_map_of_index(ks, values.drop_last(), i);
    }
}

proof fn lemma_map_of_update(keys: Seq<Seq<char>>, values: Seq<i32>, i: int, v: i32)
    requires
        keys.len() == values.len(),
        keys.no_duplicates(),
        0 <= i < keys.len(),
    ensures
        map_of(keys, values.update(i, v)) == map_of(keys, values).insert(keys[i], v),
{
    let a = map_of(keys, values.update(i, v));
    let b = map_of(keys, values).insert(keys[i], v);
    assert forall|k: Seq<char>| a.dom().contains(k) <==> b.dom().contains(k) by {
        lemma_map_of_dom(keys, values.update(i, v), k);
        lemma_map_of_dom(keys, values, k);
    }
    assert forall|k: Seq<char>| a.dom().contains(k) implies a[k] == b[k] by {
        lemma_map_of_dom(keys, values.update(i, v), k);
        let j = choose|j: int| 0 <= j < keys.len() && keys[j] == k;
        lemma_map_of_index(keys, values.update(i, v), j);
        if j != i {
            lemma_map_of_index(keys, values, j);
        }
    }
    assert(a =~= b);
}

/// A table from names to scores, in the order the names were first added.
///
/// It is held as two vectors rather than a `HashMap<String, i32>`: vstd
/// specifies a `HashMap` only for keys that obey its key model, which it
/// grants to integers and not to `String`, so nothing could be proved of a
/// table keyed by names.
pub struct Scores {
    keys: Vec<String>,
    values: Vec<i32>,
}

impl View for Scores {
    type V = Map<Seq<char>, i32>;

    /// The table as a map from names to scores.
    closed spec fn view(&self) -> Map<Seq<char>, i32> {
        map_of(self.key_views(), self.values@)
    }
}

impl Scores {
    /// The names held, in the table's order.
    pub closed spec fn key_views(&self) -> Seq<Seq<char>> {
        string_views(self.keys@)
    }

    /// Keys and values pair up, and no name occurs twice.
    pub closed spec fn wf(&self) -> bool {
        &&& self.keys@.len() == self.values@.len()
        &&& self.key_views().no_duplicates()
    }

    /// An empty table.
    pub fn new() -> (r: Scores)
        ensures
            r.wf(),
            r@ == Map::<Seq<char>, i32>::empty(),
    {
        let r = Scores { keys: Vec::new(), values: Vec::new() };
        assert(r.key_views() =~= Seq::<Seq<char>>::empty());
        r
    }

    /// How many names the table holds. Positions `0..len()` list every
    /// name of the table once each.
    pub fn len(&self) -> (r: usize)
        requires
            self.wf(),
        ensures
            r == self@.dom().len(),
            r == self.key_views().len(),
            self.key_views().no_duplicates(),
            self.key_views().to_set() == self@.dom(),
    {
        proof {
            self.lemma_dom_is_keys();
        }
        self.keys.len()
    }

    /// The table's order lists every name of the table once each.
    pub proof fn lemma_dom_is_keys(&self)
        requires
            self.wf(),
        ensures
            self.key_views().no_duplicates(),
            self@.dom() == self.key_views().to_set(),
            self@.dom().len() == self.key_views().len(),
    {
        assert forall|k: Seq<char>| self@.dom().contains(k) <==> self.key_views().to_set().contains(
            k,
        ) by {
            lemma_map_of_dom(self.key_views(), self.values@, k);
        }
        assert(self@.dom() =~= self.key_views().to_set());
        self.key_views().unique_seq_to_set();
    }

    /// Where `key` is stored, if it is.
    fn position(&self, key: &String) -> (r: Option<usize>)
        requires
            self.wf(),
        ensures
            match r {
                Some(i) => i < self.keys@.len() && self.key_views()[i as int] == key@,
                None => !self.key_views().contains(key@),
            },
    {
        let mut i: usize = 0;
        while i < self.keys.len()
            invariant
                self.wf(),
                i <= self.keys@.len(),
                forall|j: int| 0 <= j < i ==> self.key_views()[j] != key@,
            decreases self.keys@.len() - i,
        {
            if self.keys[i] == *key {
                return Some(i);
            }
            i = i + 1;
        }
        None
    }

    /// The score stored under `key`, if there is one.
    pub fn get(&self, key: &String) -> (r: Option<i32>)
        requires
            self.wf(),
        ensures
            r == (if self@.dom().contains(key@) {
                Some(self@[key@])
            } else {
                None::<i32>
            }),
    {
        proof {
            lemma_map_of_dom(self.key_views(), self.values@, key@);
        }
        match self.position(key) {
            Some(i) => {
                proof {
                    lemma_map_of_index(self.key_views(), self.values@, i as int);
                }
                Some(self.values[i])
            },
            None => None,
        }
    }

    /// Stores `value` under `key`, replacing any score already there, and
    /// returns the score it replaced.
    pub fn insert(&mut self, key: String, value: i32) -> (r: Option<i32>)
        requires
            old(self).wf(),
        ensures
            final(self).wf(),
            final(self)@ == old(self)@.insert(key@, value),
            r == (if old(self)@.dom().contains(key@) {
                Some(old(self)@[key@])
            } else {
                None::<i32>
            }),
    {
        proof {
            lemma_map_of_dom(self.key_views(), self.values@, key@);
        }
        match self.position(&key) {
            Some(i) => {
                proof {
                    lemma_map_of_index(self.key_views(), self.values@, i as int);
                    lemma_map_of_update(self.key_views(), self.values@, i as int, value);
                }
                let previous = self.values[i];
                self.values.set(i, value);
                Some(previous)
            },
            None => {
                let ghost old_views = self.key_views();
                self.keys.push(key);
                self.values.push(value);
                proof {
                    assert(self.key_views() =~= old_views.push(key@));
                    assert(self.key_views().drop_last() =~= old_views);
                    assert(self.values@.drop_last() =~= old(self).values@);
                    assert forall|a: int, b: int|
                        0 <= a < b < self.key_views().len() implies self.key_views()[a]
                        != self.key_views()[b] by {
                        if b == self.key_views().len() - 1 {
                            assert(old_views[a] == self.key_views()[a]);
                        }
                    }
                }
                None
            },
        }
    }

    /// The entry pattern `entry(key).or_insert(default)`: a score already
    /// stored is kept; otherwise `default` is stored. Returns the score now
    /// stored under `key`.
    pub fn or_insert(&mut self, key: String, default: i32) -> (r: i32)
        requires
            old(self).wf(),
        ensures
            final(self).wf(),
            old(self)@.dom().contains(key@) ==> final(self)@ == old(self)@,
            !old(self)@.dom().contains(key@) ==> final(self)@ == old(self)@.insert(key@, default),
            final(self)@.dom().contains(key@),
            r == final(self)@[key@],
    {
        match self.get(&key) {
            Some(v) => v,
            None => {
                self.insert(key, default);
                default
            },
        }
    }

    /// The entry pattern `*entry(key).or_insert(default) += delta`: stores
    /// `default` first if `key` is absent, then adds `delta` to the score
    /// stored under `key`. The new score must fit in an `i32`.
    pub fn add_to_entry(&mut self, key: String, default: i32, delta: i32)
        requires
            old(self).wf(),
            i32::MIN <= (if old(self)@.dom().contains(key@) {
                old(self)@[key@]
            } else {
                default
            }) + delta <= i32::MAX,
        ensures
            final(self).wf(),
            final(self)@ == old(self)@.insert(
                key@,
                ((if old(self)@.dom().contains(key@) {
                    old(self)@[key@]
                } else {
                    default
                }) + delta) as i32,
            ),
    {
        let current = self.or_insert(key.clone(), default);
        self.insert(key, current + delta);
        assert(final(self)@ =~= old(self)@.insert(key@, (current + delta) as i32));
    }

    /// The name and score at position `i` of the table's order.
    pub fn entry_at(&self, i: usize) -> (r: (&String, i32))
        requires
            self.wf(),
            i < self@.dom().len(),
        ensures
            self@.dom().contains(r.0@),
            self@[r.0@] == r.1,
            r.0@ == self.key_views()[i as int],
    {
        proof {
            self.lemma_dom_is_keys();
            lemma_map_of_index(self.key_views(), self.values@, i as int);
        }
        (&self.keys[i], self.values[i])
    }
}

/// What a table gives back after a score is stored: the stored score under
/// its name, and every other name with the score it had (or still absent).
pub proof fn lemma_lookup_after_insert(before: Scores, after: Scores, key: Seq<char>, value: i32)
    requires
        after@ == before@.insert(key, value),
    ensures
        after@.dom().contains(key),
        after@[key] == value,
        forall|other: Seq<char>|
            other != key ==> (#[trigger] after@.dom().contains(other) == before@.dom().contains(
                other,
            )),
        forall|other: Seq<char>|
            other != key && before@.dom().contains(other) ==> #[trigger] after@[other]
                == before@[other],
{
}

} // verus!
