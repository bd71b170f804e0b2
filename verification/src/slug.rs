//! Segments of Signal K paths made from the names of devices and fields.

use vstd::prelude::*;

use crate::text::{
    alnum, chars_of, decimal, decimal_text, is_alnum, join, join_with, lower, lowered,
    split_words, to_lower, views, words,
};

verus! {

/// The length of the stretch of letters and digits a string starts with.
pub open spec fn run_len(s: Seq<char>) -> int
    decreases s.len(),
{
    if s.len() == 0 || !is_alnum(s[0]) {
        0
    } else {
        1 + run_len(s.drop_first())
    }
}

proof fn lemma_run_len(s: Seq<char>)
    ensures
        0 <= run_len(s) <= s.len(),
        forall|i: int| 0 <= i < run_len(s) ==> is_alnum(s[i]),
        run_len(s) < s.len() ==> !is_alnum(s[run_len(s)]),
    decreases s.len(),
{
    if s.len() > 0 && is_alnum(s[0]) {
        let t = s.drop_first();
        lemma_run_len(t);
        assert forall|i: int| 0 <= i < run_len(s) implies is_alnum(s[i]) by {
            if i > 0 {
                assert(is_alnum(t[i - 1]));
            }
        }
    }
}

proof fn lemma_run_len_unique(s: Seq<char>, n: int)
    requires
        0 <= n <= s.len(),
        forall|i: int| 0 <= i < n ==> is_alnum(s[i]),
        n < s.len() ==> !is_alnum(s[n]),
    ensures
        run_len(s) == n,
{
    lemma_run_len(s);
    if run_len(s) < n {
        assert(is_alnum(s[run_len(s)]));
    } else if n < run_len(s) {
        assert(is_alnum(s[n]));
    }
}

/// The stretches of ASCII letters and digits of a string, in lower case.
pub open spec fn runs(s: Seq<char>) -> Seq<Seq<char>>
    decreases s.len(),
    via runs_decreases
{
    if s.len() == 0 {
        seq![]
    } else if !is_alnum(s[0]) {
        runs(s.drop_first())
    } else {
        seq![lowered(s.take(run_len(s)))] + runs(s.skip(run_len(s)))
    }
}

#[via_fn]
proof fn runs_decreases(s: Seq<char>) {
    lemma_run_len(s);
}

/// The stretches of letters and digits of a name in lower case, with dashes
/// between them.
pub open spec fn slug(s: Seq<char>) -> Seq<char> {
    join(runs(s), seq!['-'])
}

/// Turns a name that a user chose into a segment of a path.
pub fn field_slug(s: &str) -> (r: String)
    ensures
        r@ == slug(s@),
{
    let v = chars_of(s);
    let n: usize = v.len();
    let mut parts: Vec<String> = Vec::new();
    let mut i: usize = 0;
    assert(s@.skip(0) =~= s@);
    assert(views(parts@) + runs(s@) =~= runs(s@));
    while i < n
        invariant
            i <= n,
            n == v@.len(),
            v@ == s@,
            runs(s@) == views(parts@) + runs(s@.skip(i as int)),
        decreases n - i,
    {
        let ghost rest = s@.skip(i as int);
        assert(rest[0] == v@[i as int]);
        if !alnum(v[i]) {
            assert(rest.drop_first() =~= s@.skip(i as int + 1));
            i += 1;
        } else {
            let mut word = String::new();
            let mut k: usize = i;
            while k < n && alnum(v[k])
                invariant
                    i <= k <= n,
                    n == v@.len(),
                    v@ == s@,
                    rest == s@.skip(i as int),
                    forall|m: int| 0 <= m < k - i ==> is_alnum(rest[m]),
                    word@ == lowered(rest.take(k - i)),
                decreases n - k,
            {
                assert(rest[k - i] == v@[k as int]);
                word.push(lower(v[k]));
                k += 1;
                assert(word@ =~= lowered(rest.take(k - i)));
            }
            proof {
                if k < n {
                    assert(rest[k - i] == v@[k as int]);
                }
                lemma_run_len_unique(rest, k - i);
            }
            let ghost before = views(parts@);
            let ghost w = word@;
            parts.push(word);
            assert(views(parts@) =~= before.push(w));
            assert(rest.skip(k - i) =~= s@.skip(k as int));
            assert(before + (seq![w] + runs(s@.skip(k as int))) =~= views(parts@) + runs(
                s@.skip(k as int),
            ));
            i = k;
        }
    }
    assert(views(parts@) + runs(s@.skip(n as int)) =~= views(parts@));
    proof {
        reveal_strlit("-");
        assert("-"@ =~= seq!['-']);
    }
    join_with(&parts, "-")
}

// ---- instances -------------------------------------------------------------

/// A character as it stands in a segment: capitals in lower case, and a dash for
/// what a segment cannot hold.
pub open spec fn clean(c: char) -> char {
    if is_alnum(c) || c == '-' {
        to_lower(c)
    } else {
        '-'
    }
}

/// A name as a segment.
pub open spec fn sanitized(s: Seq<char>) -> Seq<char> {
    if s.len() == 0 {
        seq!['0']
    } else {
        Seq::new(s.len(), |i: int| clean(s[i]))
    }
}

/// Turns the name of a device or a group into a segment of a path.
pub fn sanitize(s: &str) -> (r: String)
    ensures
        r@ == sanitized(s@),
{
    let v = chars_of(s);
    let mut r = String::new();
    if v.len() == 0 {
        r.push('0');
        assert(r@ =~= seq!['0']);
        return r;
    }
    let mut i: usize = 0;
    while i < v.len()
        invariant
            i <= v@.len(),
            v@ == s@,
            r@ == Seq::new(i as nat, |k: int| clean(s@[k])),
        decreases v@.len() - i,
    {
        if alnum(v[i]) || v[i] == '-' {
            r.push(lower(v[i]));
        } else {
            r.push('-');
        }
        i += 1;
        assert(r@ =~= Seq::new(i as nat, |k: int| clean(s@[k])));
    }
    assert(r@ =~= sanitized(s@));
    r
}

/// The class of a device: the first word of its name.
pub open spec fn device_class(name: Seq<char>) -> Seq<char> {
    if words(name).len() == 0 {
        Seq::empty()
    } else {
        words(name)[0]
    }
}

/// The name of a device without its class.
pub open spec fn device_label(name: Seq<char>) -> Seq<char> {
    if words(name).len() == 0 {
        Seq::empty()
    } else {
        join(words(name).drop_first(), seq![' '])
    }
}

/// The instance of a device: its name without the class, else its name, else its
/// number.
pub open spec fn device_instance(name: Seq<char>, id: nat) -> Seq<char> {
    if device_label(name).len() > 0 {
        sanitized(device_label(name))
    } else if name.len() > 0 {
        sanitized(name)
    } else {
        decimal(id)
    }
}

/// The class of a device, by its name.
pub fn class_of(name: &str) -> (r: String)
    ensures
        r@ == device_class(name@),
{
    let parts = split_words(name);
    assert(views(parts@).len() == parts@.len());
    if parts.len() == 0 {
        String::new()
    } else {
        assert(views(parts@)[0] == parts@[0]@);
        parts[0].clone()
    }
}

/// The instance of a device, by its name and its number.
pub fn instance_of(name: &str, id: u32) -> (r: String)
    ensures
        r@ == device_instance(name@, id as nat),
{
    let mut parts = split_words(name);
    let ghost all = views(parts@);
    let label = if parts.len() == 0 {
        String::new()
    } else {
        parts.remove(0);
        assert(views(parts@) =~= all.drop_first());
        proof {
            reveal_strlit(" ");
            assert(" "@ =~= seq![' ']);
        }
        join_with(&parts, " ")
    };
    assert(label@ == device_label(name@));
    if !label.as_str().is_empty() {
        sanitize(label.as_str())
    } else if !name.is_empty() {
        sanitize(name)
    } else {
        decimal_text(id as u64)
    }
}

// ---- laws ------------------------------------------------------------------

/// The characters of segments.
pub open spec fn safe(c: char) -> bool {
    'a' <= c <= 'z' || '0' <= c <= '9' || c == '-'
}

/// Whether a string can stand as a segment of a path.
pub open spec fn segment(s: Seq<char>) -> bool {
    s.len() > 0 && forall|i: int| 0 <= i < s.len() ==> safe(#[trigger] s[i])
}

/// A sanitized name is a segment, and sanitizing it again changes nothing.
pub proof fn law_sanitized(s: Seq<char>)
    ensures
        segment(sanitized(s)),
        sanitized(sanitized(s)) == sanitized(s),
{
    let t = sanitized(s);
    assert forall|i: int| 0 <= i < t.len() implies safe(#[trigger] t[i]) by {
        lemma_clean_safe(if s.len() == 0 { '0' } else { s[i] });
    }
    assert forall|i: int| 0 <= i < t.len() implies clean(t[i]) == t[i] by {
        assert(safe(t[i]));
    }
    assert(sanitized(t) =~= t);
}

proof fn lemma_clean_safe(c: char)
    ensures
        safe(clean(c)),
{
}

/// Digits make a segment.
pub proof fn lemma_decimal_segment(n: nat)
    ensures
        segment(decimal(n)),
    decreases n,
{
    if n >= 10 {
        lemma_decimal_segment(n / 10);
        let d = decimal(n / 10);
        assert forall|i: int| 0 <= i < decimal(n).len() implies safe(#[trigger] decimal(n)[i]) by {
            if i < d.len() {
                assert(safe(d[i]));
            }
        }
    }
}

/// The instance of every device is a segment.
pub proof fn law_instance_is_a_segment(name: Seq<char>, id: nat)
    ensures
        segment(device_instance(name, id)),
{
    law_sanitized(device_label(name));
    law_sanitized(name);
    lemma_decimal_segment(id);
}

/// Runs are never empty, and hold lower-case letters and digits only.
pub open spec fn is_run(s: Seq<char>) -> bool {
    s.len() > 0 && forall|i: int| 0 <= i < s.len() ==> safe(#[trigger] s[i]) && s[i] != '-'
}

proof fn lemma_runs(s: Seq<char>)
    ensures
        forall|i: int| 0 <= i < runs(s).len() ==> is_run(#[trigger] runs(s)[i]),
    decreases s.len(),
{
    if s.len() > 0 {
        if !is_alnum(s[0]) {
            lemma_runs(s.drop_first());
            assert(runs(s) == runs(s.drop_first()));
        } else {
            lemma_run_len(s);
            let n = run_len(s);
            let rest = s.skip(n);
            lemma_runs(rest);
            let w = lowered(s.take(n));
            assert(n > 0);
            assert forall|i: int| 0 <= i < w.len() implies safe(#[trigger] w[i]) && w[i]
                != '-' by {
                assert(is_alnum(s[i]));
            }
            assert forall|i: int| 0 <= i < runs(s).len() implies is_run(#[trigger] runs(s)[i]) by {
                if i > 0 {
                    assert(runs(s)[i] == runs(rest)[i - 1]);
                } else {
                    assert(runs(s)[0] == w);
                }
            }
        }
    }
}

proof fn lemma_runs_of_joined(parts: Seq<Seq<char>>)
    requires
        forall|i: int| 0 <= i < parts.len() ==> is_run(#[trigger] parts[i]),
    ensures
        runs(join(parts, seq!['-'])) == parts,
    decreases parts.len(),
{
    if parts.len() == 0 {
        assert(parts =~= seq![]);
    } else {
        let w = parts[0];
        let s = join(parts, seq!['-']);
        let rest = parts.drop_first();
        assert(is_run(w));
        assert forall|i: int| 0 <= i < rest.len() implies is_run(#[trigger] rest[i]) by {
            assert(is_run(parts[i + 1]));
        }
        lemma_runs_of_joined(rest);
        assert forall|i: int| 0 <= i < w.len() implies is_alnum(s[i]) by {
            assert(safe(w[i]) && w[i] != '-');
        }
        lemma_run_len_unique(s, w.len() as int);
        assert(s.take(w.len() as int) =~= w);
        assert(lowered(w) =~= w) by {
            assert forall|i: int| 0 <= i < w.len() implies to_lower(w[i]) == w[i] by {
                assert(safe(w[i]));
            }
        }
        if parts.len() > 1 {
            let tail = s.skip(w.len() as int);
            assert(tail[0] == '-');
            assert(tail.drop_first() =~= join(rest, seq!['-']));
            assert(runs(tail) == rest);
        } else {
            assert(s.skip(w.len() as int) =~= seq![]);
            assert(runs(s.skip(w.len() as int)) =~= rest);
        }
        assert(seq![w] + rest =~= parts);
        assert(is_alnum(s[0]));
    }
}

proof fn lemma_joined_runs(parts: Seq<Seq<char>>)
    requires
        parts.len() > 0,
        forall|i: int| 0 <= i < parts.len() ==> is_run(#[trigger] parts[i]),
    ensures
        segment(join(parts, seq!['-'])),
        join(parts, seq!['-'])[0] != '-',
        join(parts, seq!['-']).last() != '-',
    decreases parts.len(),
{
    let w = parts[0];
    let s = join(parts, seq!['-']);
    assert(is_run(w));
    assert(safe(w[0]) && w[0] != '-');
    assert(safe(w.last()) && w.last() != '-');
    if parts.len() > 1 {
        let rest = parts.drop_first();
        assert forall|i: int| 0 <= i < rest.len() implies is_run(#[trigger] rest[i]) by {
            assert(is_run(parts[i + 1]));
        }
        lemma_joined_runs(rest);
        let t = join(rest, seq!['-']);
        assert forall|i: int| 0 <= i < s.len() implies safe(#[trigger] s[i]) by {
            if i < w.len() {
                assert(safe(w[i]));
            } else if i > w.len() {
                assert(s[i] == t[i - w.len() - 1]);
            }
        }
        assert(s.last() == t.last());
    }
}

/// A slug is empty or a segment without a dash at its ends, and the slug of a slug
/// is the slug itself.
pub proof fn law_slug(s: Seq<char>)
    ensures
        slug(s).len() > 0 ==> segment(slug(s)) && slug(s)[0] != '-' && slug(s).last() != '-',
        slug(slug(s)) == slug(s),
{
    lemma_runs(s);
    lemma_runs_of_joined(runs(s));
    if runs(s).len() > 0 {
        lemma_joined_runs(runs(s));
    }
}

} // verus!
