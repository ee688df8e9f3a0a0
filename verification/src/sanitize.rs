//! The file-name sanitizer: lower-case the card name, collapse every run of
//! characters outside `a..z` into a single underscore, drop the underscore
//! a trailing run leaves, and add the image extension.

use vstd::prelude::*;
use vstd::string::StringExecFns;
use crate::text::chars_string;
use crate::text::push_char;
use crate::text::str_chars;

verus! {

/// A character the sanitizer keeps: an ASCII lower-case letter.
pub open spec fn kept(c: char) -> bool {
    'a' as u32 <= c as u32 && c as u32 <= 'z' as u32
}

/// One left-to-right pass over `s` from position `i`: kept characters stay,
/// and a run of any other characters becomes a single underscore.
/// `after_mark` says whether the previous character already produced one.
pub open spec fn cleaned_from(s: Seq<char>, i: int, after_mark: bool) -> Seq<char>
    decreases s.len() - i,
{
    if i < 0 || i >= s.len() {
        Seq::empty()
    } else if kept(s[i]) {
        seq![s[i]] + cleaned_from(s, i + 1, false)
    } else if after_mark {
        cleaned_from(s, i + 1, true)
    } else {
        seq!['_'] + cleaned_from(s, i + 1, true)
    }
}

/// The cleaning pass over a whole name.
pub open spec fn cleaned(s: Seq<char>) -> Seq<char> {
    cleaned_from(s, 0, false)
}

/// Underscores dropped from the back.
pub open spec fn trim_tail_marks(s: Seq<char>) -> Seq<char>
    decreases s.len(),
{
    if s.len() > 0 && s.last() == '_' {
        trim_tail_marks(s.drop_last())
    } else {
        s
    }
}

/// The sanitized stem of an already lower-cased name: the cleaning pass,
/// with the underscore that a trailing run would leave dropped.
pub open spec fn stem_of(s: Seq<char>) -> Seq<char> {
    trim_tail_marks(cleaned(s))
}

/// The image file extension.
pub open spec fn png_suffix() -> Seq<char> {
    seq!['.', 'p', 'n', 'g']
}

/// What `str::to_lowercase` returns for a given character sequence.
pub uninterp spec fn lower_of(s: Seq<char>) -> Seq<char>;

/// The sanitized file name of a card name, without a prefix.
pub open spec fn sanitized(name: Seq<char>) -> Seq<char> {
    stem_of(lower_of(name)) + png_suffix()
}

/// The sanitized file name of a card name, under an ordinal prefix.
pub open spec fn sanitized_with_prefix(prefix: Seq<char>, name: Seq<char>) -> Seq<char> {
    prefix + seq!['_'] + stem_of(lower_of(name)) + png_suffix()
}

/// Relies on `str::to_lowercase`: returns the lower-case equivalent of the
/// string, a function of its characters alone.
#[verifier::external_body]
fn lowercase(s: &str) -> (r: String)
    ensures
        r@ == lower_of(s@),
{
    s.to_lowercase()
}

/// The cleaning pass, executably.
fn clean_chars(s: &Vec<char>) -> (out: Vec<char>)
    ensures
        out@ == cleaned(s@),
{
    let mut out: Vec<char> = Vec::new();
    let mut i: usize = 0;
    let mut after_mark: bool = false;
    while i < s.len()
        invariant
            i <= s@.len(),
            cleaned(s@) == out@ + cleaned_from(s@, i as int, after_mark),
        decreases s@.len() - i,
    {
        let c = s[i];
        let ghost prev_out = out@;
        let ghost prev_mark = after_mark;
        if 'a' as u32 <= c as u32 && c as u32 <= 'z' as u32 {
            out.push(c);
            after_mark = false;
            proof {
                assert(cleaned_from(s@, i as int, prev_mark) == seq![c] + cleaned_from(
                    s@,
                    i + 1,
                    false,
                ));
                assert(prev_out + (seq![c] + cleaned_from(s@, i + 1, false)) =~= out@
                    + cleaned_from(s@, i + 1, false));
            }
        } else if !after_mark {
            out.push('_');
            after_mark = true;
            proof {
                assert(cleaned_from(s@, i as int, prev_mark) == seq!['_'] + cleaned_from(
                    s@,
                    i + 1,
                    true,
                ));
                assert(prev_out + (seq!['_'] + cleaned_from(s@, i + 1, true)) =~= out@
                    + cleaned_from(s@, i + 1, true));
            }
        } else {
            proof {
                assert(cleaned_from(s@, i as int, prev_mark) == cleaned_from(s@, i + 1, true));
            }
        }
        i = i + 1;
    }
    proof {
        assert(cleaned_from(s@, i as int, after_mark) == Seq::<char>::empty());
        assert(out@ + Seq::<char>::empty() =~= out@);
    }
    out
}

/// Underscores dropped from the back, executably.
fn trim_tail(v: &Vec<char>) -> (out: Vec<char>)
    ensures
        out@ == trim_tail_marks(v@),
{
    let mut b: usize = v.len();
    proof {
        assert(v@.take(b as int) =~= v@);
    }
    while b > 0 && v[b - 1] == '_'
        invariant
            b <= v@.len(),
            trim_tail_marks(v@) == trim_tail_marks(v@.take(b as int)),
        decreases b,
    {
        proof {
            let t = v@.take(b as int);
            assert(t.last() == v@[b - 1]);
            assert(t.drop_last() =~= v@.take(b - 1));
        }
        b = b - 1;
    }
    proof {
        let t = v@.take(b as int);
        if b > 0 {
            assert(t.last() == v@[b - 1]);
            assert(trim_tail_marks(t) == t);
        } else {
            assert(t =~= Seq::<char>::empty());
            assert(trim_tail_marks(t) == t);
        }
    }
    let mut out: Vec<char> = Vec::new();
    let mut i: usize = 0;
    while i < b
        invariant
            i <= b <= v@.len(),
            out@ == v@.subrange(0, i as int),
        decreases b - i,
    {
        out.push(v[i]);
        proof {
            assert(v@.subrange(0, i as int).push(v@[i as int]) =~= v@.subrange(0, i + 1));
        }
        i = i + 1;
    }
    proof {
        assert(v@.subrange(0, b as int) =~= v@.take(b as int));
    }
    out
}

/// The sanitized file name of a card name: lower-cased, runs of characters
/// outside `a..z` collapsed into single underscores, the underscore of a
/// trailing run dropped, and `.png` appended.
pub fn sanitize(name: &str) -> (r: String)
    ensures
        r@ == sanitized(name@),
{
    let low = lowercase(name);
    let lv = str_chars(low.as_str());
    let cl = clean_chars(&lv);
    let st = trim_tail(&cl);
    let mut r = chars_string(&st);
    r.append(".png");
    proof {
        reveal_strlit(".png");
        assert(".png"@ =~= png_suffix());
        assert(stem_of(lower_of(name@)) + ".png"@ =~= sanitized(name@));
    }
    r
}

/// The sanitized file name of a card name under its ordinal prefix, as the
/// written image file carries it.
pub fn sanitize_with_prefix(prefix: &str, name: &str) -> (r: String)
    ensures
        r@ == sanitized_with_prefix(prefix@, name@),
{
    let mut r = prefix.to_owned();
    push_char(&mut r, '_');
    let s = sanitize(name);
    r.append(s.as_str());
    proof {
        assert(prefix@.push('_') =~= prefix@ + seq!['_']);
        assert((prefix@ + seq!['_']) + (stem_of(lower_of(name@)) + png_suffix())
            =~= sanitized_with_prefix(prefix@, name@));
    }
    r
}

/// A tidy character sequence: only kept characters and underscores, and
/// never two underscores side by side. The cleaning pass yields such
/// sequences, and leaves them unchanged.
pub open spec fn tidy(t: Seq<char>) -> bool {
    &&& forall|j: int| 0 <= j < t.len() ==> kept(#[trigger] t[j]) || t[j] == '_'
    &&& forall|j: int| 0 <= j < t.len() - 1 ==> !((#[trigger] t[j]) == '_' && t[j + 1] == '_')
}

proof fn lemma_cleaned_shape(s: Seq<char>, i: int, after_mark: bool)
    ensures
        tidy(cleaned_from(s, i, after_mark)),
        after_mark && cleaned_from(s, i, after_mark).len() > 0 ==> cleaned_from(
            s,
            i,
            after_mark,
        )[0] != '_',
    decreases s.len() - i,
{
    if i < 0 || i >= s.len() {
    } else if kept(s[i]) {
        lemma_cleaned_shape(s, i + 1, false);
        let r = seq![s[i]] + cleaned_from(s, i + 1, false);
        assert(r[0] == s[i]);
        assert(forall|j: int| 1 <= j < r.len() ==> r[j] == cleaned_from(s, i + 1, false)[j - 1]);
        assert(!kept('_'));
    } else if after_mark {
        lemma_cleaned_shape(s, i + 1, true);
    } else {
        lemma_cleaned_shape(s, i + 1, true);
        let r = seq!['_'] + cleaned_from(s, i + 1, true);
        assert(r[0] == '_');
        assert(forall|j: int| 1 <= j < r.len() ==> r[j] == cleaned_from(s, i + 1, true)[j - 1]);
    }
}

proof fn lemma_cleaned_fixpoint(t: Seq<char>, i: int, after_mark: bool)
    requires
        tidy(t),
        0 <= i <= t.len(),
        after_mark ==> i > 0 && t[i - 1] == '_',
        !after_mark ==> i == 0 || t[i - 1] != '_',
    ensures
        cleaned_from(t, i, after_mark) == t.skip(i),
    decreases t.len() - i,
{
    if i >= t.len() {
        assert(t.skip(i) =~= Seq::<char>::empty());
    } else if kept(t[i]) {
        assert(!kept('_'));
        lemma_cleaned_fixpoint(t, i + 1, false);
        assert(seq![t[i]] + t.skip(i + 1) =~= t.skip(i));
    } else {
        assert(t[i] == '_');
        if after_mark {
            assert(t[i - 1] == '_' && t[i] == '_');
            assert(false);
        } else {
            lemma_cleaned_fixpoint(t, i + 1, true);
            assert(seq!['_'] + t.skip(i + 1) =~= t.skip(i));
        }
    }
}

proof fn lemma_trim_tail(t: Seq<char>)
    ensures
        trim_tail_marks(t).len() <= t.len(),
        trim_tail_marks(t) == t.take(trim_tail_marks(t).len() as int),
        trim_tail_marks(t).len() > 0 ==> trim_tail_marks(t).last() != '_',
    decreases t.len(),
{
    if t.len() > 0 && t.last() == '_' {
        lemma_trim_tail(t.drop_last());
        let r = trim_tail_marks(t);
        assert(t.drop_last().take(r.len() as int) =~= t.take(r.len() as int));
    } else {
        assert(t.take(t.len() as int) =~= t);
    }
}

/// Law: the sanitizer's character-level step is idempotent. Cleaning and
/// trimming a stem that the sanitizer produced hands the very same stem
/// back.
pub proof fn lemma_stem_idempotent(s: Seq<char>)
    ensures
        stem_of(stem_of(s)) == stem_of(s),
{
    let c = cleaned(s);
    lemma_cleaned_shape(s, 0, false);
    lemma_trim_tail(c);
    let u = trim_tail_marks(c);
    assert(u == stem_of(s));
    assert(tidy(u)) by {
        assert(forall|j: int| 0 <= j < u.len() ==> u[j] == c[j]);
    }
    lemma_cleaned_fixpoint(u, 0, false);
    assert(u.skip(0) =~= u);
    assert(cleaned(u) == u);
    assert(trim_tail_marks(u) == u);
    assert(stem_of(u) == u);
}

/// Law: sanitizing is idempotent. A stem holds only lower-case letters and
/// underscores, so lower-casing leaves it unchanged — the library assumes
/// nothing of `str::to_lowercase` beyond its named result, and takes that
/// fact as a premise — and then the whole sanitizing pass hands the stem
/// back as it is.
pub proof fn lemma_sanitize_idempotent(s: Seq<char>)
    requires
        lower_of(stem_of(s)) == stem_of(s),
    ensures
        stem_of(lower_of(stem_of(s))) == stem_of(s),
{
    lemma_stem_idempotent(s);
}

} // verus!
