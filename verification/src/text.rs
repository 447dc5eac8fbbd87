//! Building and taking apart texts: decimal digits, separators, segments.
use vstd::prelude::*;

verus! {

/// The character of the decimal digit `d`.
pub open spec fn digit_char(d: int) -> char {
    (('0' as int) + d) as char
}

/// The last `k` decimal digits of `n`, most significant first, zero-padded.
pub open spec fn fixed_digits(n: nat, k: nat) -> Seq<char>
    decreases k,
{
    if k == 0 {
        Seq::empty()
    } else {
        fixed_digits(n / 10, (k - 1) as nat).push(digit_char((n % 10) as int))
    }
}

/// The two decimal digits of `n` (`n < 100`), zero-padded, as `{:02}` writes them.
pub open spec fn two_digits(n: nat) -> Seq<char> {
    fixed_digits(n, 2)
}

/// `fixed_digits(n, k)` has `k` characters, each a decimal digit.
pub proof fn lemma_fixed_digits_chars(n: nat, k: nat)
    ensures
        fixed_digits(n, k).len() == k,
        forall|i: int|
            0 <= i < k ==> '0' as int <= (#[trigger] fixed_digits(n, k)[i]) as int <= '9' as int,
    decreases k,
{
    if k > 0 {
        lemma_fixed_digits_chars(n / 10, (k - 1) as nat);
        let prev = fixed_digits(n / 10, (k - 1) as nat);
        assert forall|i: int| 0 <= i < k implies '0' as int <= (#[trigger] fixed_digits(n, k)[i]) as int
            <= '9' as int by {
            if i < k - 1 {
                assert(fixed_digits(n, k)[i] == prev[i]);
            }
        }
    }
}

/// Appends `c` to `s`, by std's `String::push`. Trusted: that the text
/// afterwards is the text before with `c` at its end.
#[verifier::external_body]
pub(crate) fn push_char(s: &mut String, c: char)
    ensures
        final(s)@ == old(s)@.push(c),
{
    s.push(c);
}

/// The character of the decimal digit `d`.
pub(crate) fn digit(d: u32) -> (c: char)
    requires
        d < 10,
    ensures
        c == digit_char(d as int),
{
    match d {
        0 => '0',
        1 => '1',
        2 => '2',
        3 => '3',
        4 => '4',
        5 => '5',
        6 => '6',
        7 => '7',
        8 => '8',
        _ => '9',
    }
}

/// Appends the last `k` decimal digits of `n` to `s`.
pub(crate) fn push_fixed_digits(s: &mut String, n: u32, k: u32)
    ensures
        final(s)@ == old(s)@ + fixed_digits(n as nat, k as nat),
    decreases k,
{
    if k > 0 {
        push_fixed_digits(s, n / 10, k - 1);
        push_char(s, digit(n % 10));
    } else {
        assert(old(s)@ + fixed_digits(n as nat, 0) =~= old(s)@);
    }
    proof {
        if k > 0 {
            assert(fixed_digits(n as nat, k as nat) == fixed_digits((n / 10) as nat, (k - 1) as nat).push(
                digit_char((n % 10) as int),
            ));
            assert(old(s)@ + fixed_digits(n as nat, k as nat) =~= (old(s)@ + fixed_digits(
                (n / 10) as nat,
                (k - 1) as nat,
            )).push(digit_char((n % 10) as int)));
        }
    }
}

/// The position of the last `c` in `s`, if `s` holds a `c`.
pub open spec fn last_index_of(s: Seq<char>, c: char) -> Option<int>
    decreases s.len(),
{
    if s.len() == 0 {
        None
    } else if s.last() == c {
        Some(s.len() - 1)
    } else {
        last_index_of(s.drop_last(), c)
    }
}

/// What follows the last `/` of `s`; all of `s` where it holds none.
pub open spec fn last_segment(s: Seq<char>) -> Seq<char> {
    match last_index_of(s, '/') {
        Some(i) => s.subrange(i + 1, s.len() as int),
        None => s,
    }
}

/// What precedes the last `/` of `s`; nothing where it holds none.
pub open spec fn before_last_segment(s: Seq<char>) -> Seq<char> {
    match last_index_of(s, '/') {
        Some(i) => s.subrange(0, i),
        None => Seq::empty(),
    }
}

/// `s` holds no `c`.
pub open spec fn lacks(s: Seq<char>, c: char) -> bool {
    forall|i: int| 0 <= i < s.len() ==> s[i] != c
}

/// What `last_index_of` finds: a `c` with none after it, or no `c` at all.
pub proof fn lemma_last_index_of(s: Seq<char>, c: char)
    ensures
        last_index_of(s, c) matches Some(i) ==> 0 <= i < s.len() && s[i] == c && lacks(
            s.subrange(i + 1, s.len() as int),
            c,
        ),
        last_index_of(s, c) is None ==> lacks(s, c),
    decreases s.len(),
{
    if s.len() > 0 {
        let t = s.drop_last();
        if s.last() != c {
            lemma_last_index_of(t, c);
            match last_index_of(t, c) {
                Some(i) => {
                    let tail = s.subrange(i + 1, s.len() as int);
                    assert forall|j: int| 0 <= j < tail.len() implies tail[j] != c by {
                        if j < t.len() - i - 1 {
                            assert(tail[j] == t.subrange(i + 1, t.len() as int)[j]);
                        }
                    }
                },
                None => {
                    assert forall|j: int| 0 <= j < s.len() implies s[j] != c by {
                        if j < t.len() {
                            assert(s[j] == t[j]);
                        }
                    }
                },
            }
        }
    }
}

/// A `c` with none after it is the last `c`.
pub proof fn lemma_last_index_of_unique(s: Seq<char>, c: char, i: int)
    requires
        0 <= i < s.len(),
        s[i] == c,
        lacks(s.subrange(i + 1, s.len() as int), c),
    ensures
        last_index_of(s, c) == Some(i),
    decreases s.len(),
{
    if i < s.len() - 1 {
        assert(s.subrange(i + 1, s.len() as int)[s.len() - 2 - i] == s.last());
        assert(s.drop_last().subrange(i + 1, s.len() - 1) =~= s.subrange(i + 1, s.len() as int).drop_last());
        lemma_last_index_of_unique(s.drop_last(), c, i);
    }
}

/// Whatever stands before a `/`, the segment after it is what follows it,
/// when that holds no `/`.
pub proof fn lemma_last_segment_of_joined(prefix: Seq<char>, tail: Seq<char>)
    requires
        lacks(tail, '/'),
    ensures
        last_segment(prefix + seq!['/'] + tail) == tail,
        before_last_segment(prefix + seq!['/'] + tail) == prefix,
{
    let s = prefix + seq!['/'] + tail;
    let i = prefix.len() as int;
    assert(s.subrange(i + 1, s.len() as int) =~= tail);
    assert(s.subrange(0, i) =~= prefix);
    lemma_last_index_of_unique(s, '/', i);
}

/// A text without `/` is its own last segment.
pub proof fn lemma_last_segment_of_plain(s: Seq<char>)
    requires
        lacks(s, '/'),
    ensures
        last_segment(s) == s,
    decreases s.len(),
{
    if s.len() > 0 {
        assert(lacks(s.drop_last(), '/')) by {
            assert forall|i: int| 0 <= i < s.len() - 1 implies s.drop_last()[i] != '/' by {
                assert(s.drop_last()[i] == s[i]);
            }
        }
        lemma_last_segment_of_plain(s.drop_last());
        assert(s.last() != '/');
        match last_index_of(s.drop_last(), '/') {
            Some(i) => {
                lemma_last_index_of(s.drop_last(), '/');
            },
            None => {},
        }
    }
}

/// The position of the last `c` in `s`, if any.
pub fn find_last(s: &str, c: char) -> (res: Option<usize>)
    ensures
        match res {
            Some(i) => last_index_of(s@, c) == Some(i as int),
            None => last_index_of(s@, c) is None,
        },
{
    let n = s.unicode_len();
    let mut k = n;
    assert(s@.subrange(0, n as int) =~= s@);
    while k > 0
        invariant
            k <= n == s@.len(),
            last_index_of(s@, c) == last_index_of(s@.subrange(0, k as int), c),
        decreases k,
    {
        let ch = s.get_char(k - 1);
        if ch == c {
            return Some(k - 1);
        }
        assert(s@.subrange(0, k as int).drop_last() =~= s@.subrange(0, k - 1));
        k = k - 1;
    }
    None
}

/// What follows the last `/` of `s`; all of `s` where it holds none.
pub fn split_last_segment(s: &str) -> (res: &str)
    ensures
        res@ == last_segment(s@),
{
    let n = s.unicode_len();
    match find_last(s, '/') {
        Some(i) => {
            proof {
                lemma_last_index_of(s@, '/');
            }
            s.substring_char(i + 1, n)
        },
        None => {
            assert(s@.subrange(0, s@.len() as int) =~= s@);
            s
        },
    }
}

/// What precedes the last `/` of `s`; nothing where it holds none.
pub fn split_before_last_segment(s: &str) -> (res: &str)
    ensures
        res@ == before_last_segment(s@),
{
    match find_last(s, '/') {
        Some(i) => {
            proof {
                lemma_last_index_of(s@, '/');
            }
            s.substring_char(0, i)
        },
        None => {
            let e = "";
            proof {
                reveal_strlit("");
            }
            assert(e@ =~= Seq::<char>::empty());
            e
        },
    }
}

/// Whether two texts are the same.
pub fn same_text(a: &str, b: &str) -> (res: bool)
    ensures
        res == (a@ == b@),
{
    let n = a.unicode_len();
    if n != b.unicode_len() {
        return false;
    }
    let mut i: usize = 0;
    while i < n
        invariant
            i <= n == a@.len() == b@.len(),
            forall|j: int| 0 <= j < i ==> a@[j] == b@[j],
        decreases n - i,
    {
        if a.get_char(i) != b.get_char(i) {
            return false;
        }
        i = i + 1;
    }
    assert(a@ =~= b@);
    true
}

/// Whether `list` holds the text `s`.
pub fn contains_text(list: &Vec<String>, s: &str) -> (res: bool)
    ensures
        res == exists|i: int| 0 <= i < list@.len() && #[trigger] list@[i]@ == s@,
{
    let mut i: usize = 0;
    while i < list.len()
        invariant
            i <= list@.len(),
            forall|j: int| 0 <= j < i ==> #[trigger] list@[j]@ != s@,
        decreases list.len() - i,
    {
        if same_text(list[i].as_str(), s) {
            return true;
        }
        i = i + 1;
    }
    false
}

} // verus!
