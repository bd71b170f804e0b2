//! What names become in paths: slugs of fields, segments, and the class and the instance of
//! a device.

use vstd::prelude::*;

use crate::slug::{
    device_class, device_instance, device_label, run_len, runs, safe, sanitized, segment, slug,
};
use crate::text::{decimal, is_alnum, is_white, join, lowered, words};
use crate::text_laws::{law_words, law_words_are_words, unbroken};

verus! {

/// Whether a string is made of letters and digits of ASCII only.
pub open spec fn plain_word(s: Seq<char>) -> bool {
    forall|i: int| 0 <= i < s.len() ==> is_alnum(#[trigger] s[i])
}

/// A slug is the stretches of letters and digits of a name, in small letters and with a dash
/// between each two: nothing has none, any other character before a name adds none, and a
/// stretch up to the next such character is one.
pub proof fn law_stretches(w: Seq<char>, rest: Seq<char>, c: char)
    ensures
        runs(Seq::empty()).len() == 0,
        !is_alnum(c) ==> runs(seq![c] + rest) == runs(rest),
        w.len() > 0 && plain_word(w) && (rest.len() == 0 || !is_alnum(rest[0])) ==> runs(w + rest)
            == seq![lowered(w)] + runs(rest),
        slug(rest) == join(runs(rest), seq!['-']),
{
    assert((seq![c] + rest).drop_first() =~= rest);
    assert((seq![c] + rest)[0] == c);
    if w.len() > 0 && plain_word(w) && (rest.len() == 0 || !is_alnum(rest[0])) {
        let t = w + rest;
        assert(t[0] == w[0]);
        lemma_run_len(w, rest);
        assert(t.take(w.len() as int) =~= w);
        assert(t.skip(w.len() as int) =~= rest);
    }
}

proof fn lemma_run_len(w: Seq<char>, rest: Seq<char>)
    requires
        plain_word(w),
        rest.len() == 0 || !is_alnum(rest[0]),
    ensures
        run_len(w + rest) == w.len(),
    decreases w.len(),
{
    if w.len() > 0 {
        let v = w.drop_first();
        assert((w + rest).drop_first() =~= v + rest);
        assert((w + rest)[0] == w[0]);
        assert forall|i: int| 0 <= i < v.len() implies is_alnum(#[trigger] v[i]) by {
            assert(v[i] == w[i + 1]);
        }
        lemma_run_len(v, rest);
    } else {
        assert(w + rest =~= rest);
    }
}

/// A segment keeps small letters, digits and dashes, puts small letters for capital ones and
/// a dash for anything else, character by character. No name becomes `0`.
pub proof fn law_segments(s: Seq<char>, i: int)
    ensures
        s.len() == 0 ==> sanitized(s) == "0"@,
        s.len() > 0 ==> sanitized(s).len() == s.len(),
        0 <= i < s.len() ==> {
            let (was, now) = (s[i], sanitized(s)[i]);
            &&& 'a' <= was && was <= 'z' || '0' <= was && was <= '9' || was == '-' ==> now == was
            &&& 'A' <= was && was <= 'Z' ==> now as int == was as int + 32
            &&& !('a' <= was && was <= 'z' || 'A' <= was && was <= 'Z' || '0' <= was && was <= '9')
                ==> now == '-'
        },
{
    reveal_strlit("0");
    if s.len() == 0 {
        assert(sanitized(s) =~= "0"@);
    }
}

/// The class of a device is the first word of its name, and its instance is made of the
/// words behind it; of the name where there are none, and of its number where it has no
/// name.
pub proof fn law_class_and_instance(class: Seq<char>, rest: Seq<char>, id: nat)
    requires
        class.len() > 0,
        unbroken(class),
        rest.len() == 0 || is_white(rest[0]),
    ensures
        device_class(class + rest) == class,
        words(rest).len() > 0 ==> device_instance(class + rest, id) == sanitized(
            join(words(rest), seq![' ']),
        ),
        words(rest).len() == 0 ==> device_instance(class + rest, id) == sanitized(class + rest),
        device_instance(Seq::empty(), id) == decimal(id),
        device_class(Seq::empty()).len() == 0,
{
    law_words(class, rest, ' ');
    let all = words(class + rest);
    assert(all.drop_first() =~= words(rest));
    assert(words(Seq::<char>::empty()).len() == 0);
    if words(rest).len() == 0 {
        assert(words(rest) =~= seq![]);
        assert(device_label(class + rest).len() == 0);
    } else {
        law_words_are_words(rest, 0);
        assert(join(words(rest), seq![' ']).len() >= words(rest)[0].len());
    }
}

/// A segment is not empty and holds small letters, digits and dashes only.
pub proof fn law_segment(s: Seq<char>, i: int)
    ensures
        segment(s) ==> s.len() > 0,
        segment(s) && 0 <= i < s.len() ==> 97 <= s[i] as int <= 122 || 48 <= s[i] as int <= 57
            || s[i] == '-',
        s.len() > 0 && (forall|j: int|
            0 <= j < s.len() ==> 97 <= #[trigger] s[j] as int <= 122 || 48 <= s[j] as int <= 57
                || s[j] == '-') ==> segment(s),
{
    if segment(s) && 0 <= i < s.len() {
        assert(safe(s[i]));
    }
}

} // verus!
