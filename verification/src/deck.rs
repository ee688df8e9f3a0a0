//! The decklist parser and sequencer: `count name` lines, blank lines
//! skipped, and a global ordinal counter that numbers every physical copy
//! across the whole list.

use vstd::prelude::*;
use crate::error::ErrV;
use crate::error::PipelineError;
use crate::text::chars_string;
use crate::text::dec_val;
use crate::text::digit_char;
use crate::text::is_digit;
use crate::text::is_space;
use crate::text::format_ordinal;
use crate::text::ordinal_prefix;
use crate::text::space_char;
use crate::text::str_chars;

verus! {

/// One physical copy to render: its position across the whole decklist as
/// a zero-padded prefix, and the card name to resolve.
#[derive(Debug)]
pub struct CardInstance {
    pub prefix: String,
    pub name: String,
}

/// The mathematical shadow of `CardInstance`.
pub ghost struct InstV {
    pub prefix: Seq<char>,
    pub name: Seq<char>,
}

impl View for CardInstance {
    type V = InstV;

    open spec fn view(&self) -> InstV {
        InstV { prefix: self.prefix@, name: self.name@ }
    }
}

/// A trailing carriage return dropped, as line splitting treats it as part
/// of the line ending.
pub open spec fn strip_cr(l: Seq<char>) -> Seq<char> {
    if l.len() > 0 && l.last() == '\r' {
        l.drop_last()
    } else {
        l
    }
}

/// The lines of `s`, split at newlines, `cur` being the part of the
/// current line already passed.
pub open spec fn lines_from(s: Seq<char>, cur: Seq<char>) -> Seq<Seq<char>>
    decreases s.len(),
{
    if s.len() == 0 {
        if cur.len() == 0 {
            Seq::empty()
        } else {
            seq![strip_cr(cur)]
        }
    } else if s[0] == '\n' {
        seq![strip_cr(cur)] + lines_from(s.drop_first(), Seq::empty())
    } else {
        lines_from(s.drop_first(), cur.push(s[0]))
    }
}

/// The lines of a decklist text.
pub open spec fn lines_of(s: Seq<char>) -> Seq<Seq<char>> {
    lines_from(s, Seq::empty())
}

/// The length of the run of decimal digits that opens the line.
pub open spec fn digit_run(l: Seq<char>) -> int
    decreases l.len(),
{
    if l.len() == 0 || !is_digit(l[0]) {
        0
    } else {
        1 + digit_run(l.drop_first())
    }
}

proof fn lemma_digit_run_char(l: Seq<char>, i: int)
    requires
        0 <= i <= l.len(),
        forall|j: int| 0 <= j < i ==> is_digit(#[trigger] l[j]),
        i < l.len() ==> !is_digit(l[i]),
    ensures
        digit_run(l) == i,
    decreases l.len(),
{
    if i == 0 {
    } else {
        assert(is_digit(l[0]));
        assert(forall|j: int| 0 <= j < i - 1 ==> is_digit(#[trigger] l.drop_first()[j]));
        lemma_digit_run_char(l.drop_first(), i - 1);
    }
}

/// White space dropped from the front.
pub open spec fn trim_front(l: Seq<char>) -> Seq<char>
    decreases l.len(),
{
    if l.len() > 0 && is_space(l[0]) {
        trim_front(l.drop_first())
    } else {
        l
    }
}

/// White space dropped from the back.
pub open spec fn trim_back(l: Seq<char>) -> Seq<char>
    decreases l.len(),
{
    if l.len() > 0 && is_space(l.last()) {
        trim_back(l.drop_last())
    } else {
        l
    }
}

/// White space dropped from both ends.
pub open spec fn trimmed(l: Seq<char>) -> Seq<char> {
    trim_back(trim_front(l))
}

/// What a non-blank decklist line means: a positive count that fits the
/// machine, one separating white-space character, and a non-empty trimmed
/// card name. `None` is a parse error.
pub open spec fn line_entry(l: Seq<char>) -> Option<(nat, Seq<char>)> {
    let nd = digit_run(l);
    if nd == 0 || nd >= l.len() || !is_space(l[nd]) {
        None
    } else {
        let k = dec_val(l.take(nd));
        let name = trimmed(l.skip(nd));
        if name.len() == 0 || k == 0 || k > usize::MAX as nat {
            None
        } else {
            Some((k, name))
        }
    }
}

/// What parsing a decklist returns, line by line from ordinal `ord`: the
/// expansion of every entry into numbered instances, or the first offending
/// line. A count whose expansion would push the ordinal counter past the
/// machine's limit counts as offending.
pub open spec fn parse_spec(lines: Seq<Seq<char>>, ord: nat) -> Result<Seq<InstV>, ErrV>
    decreases lines.len(),
{
    if lines.len() == 0 {
        Ok(Seq::empty())
    } else {
        let l = lines[0];
        if l.len() == 0 {
            parse_spec(lines.drop_first(), ord)
        } else {
            match line_entry(l) {
                None => Err(ErrV::Parse { line: l }),
                Some((k, name)) => {
                    if ord + k > usize::MAX as nat {
                        Err(ErrV::Parse { line: l })
                    } else {
                        match parse_spec(lines.drop_first(), ord + k) {
                            Err(e) => Err(e),
                            Ok(rest) => Ok(
                                Seq::new(
                                    k,
                                    |t: int|
                                        InstV {
                                            prefix: ordinal_prefix((ord + t) as nat),
                                            name: name,
                                        },
                                ) + rest,
                            ),
                        }
                    }
                },
            }
        }
    }
}

/// The parse result, seen mathematically.
pub open spec fn parse_result_view(r: Result<Vec<CardInstance>, PipelineError>) -> Result<
    Seq<InstV>,
    ErrV,
> {
    match r {
        Ok(v) => Ok(v@.map_values(|c: CardInstance| c@)),
        Err(e) => Err(e@),
    }
}

fn strip_cr_vec(v: Vec<char>) -> (r: Vec<char>)
    ensures
        r@ == strip_cr(v@),
{
    let mut v = v;
    if v.len() > 0 && v[v.len() - 1] == '\r' {
        v.pop();
    }
    v
}

fn split_lines(chars: &Vec<char>) -> (lines: Vec<Vec<char>>)
    ensures
        lines@.map_values(|l: Vec<char>| l@) == lines_of(chars@),
{
    let mut lines: Vec<Vec<char>> = Vec::new();
    let mut cur: Vec<char> = Vec::new();
    let mut i: usize = 0;
    proof {
        assert(chars@.skip(0) =~= chars@);
        assert(lines@.map_values(|l: Vec<char>| l@) =~= Seq::<Seq<char>>::empty());
        assert(Seq::<Seq<char>>::empty() + lines_from(chars@, Seq::<char>::empty())
            =~= lines_from(chars@, Seq::<char>::empty()));
    }
    while i < chars.len()
        invariant
            i <= chars@.len(),
            lines_of(chars@) == lines@.map_values(|l: Vec<char>| l@) + lines_from(
                chars@.skip(i as int),
                cur@,
            ),
        decreases chars@.len() - i,
    {
        let ghost prev_lines = lines@.map_values(|l: Vec<char>| l@);
        let ghost rest = chars@.skip(i as int);
        proof {
            assert(rest[0] == chars@[i as int]);
            assert(rest.drop_first() =~= chars@.skip(i + 1));
        }
        let ghost curv = cur@;
        let c = chars[i];
        if c == '\n' {
            let done = strip_cr_vec(cur);
            lines.push(done);
            cur = Vec::new();
            proof {
                assert(lines_from(rest, curv) == seq![strip_cr(curv)] + lines_from(
                    rest.drop_first(),
                    Seq::empty(),
                ));
                assert(lines@.map_values(|l: Vec<char>| l@) =~= prev_lines + seq![strip_cr(curv)]);
                assert((prev_lines + seq![strip_cr(curv)]) + lines_from(
                    chars@.skip(i + 1),
                    Seq::empty(),
                ) =~= prev_lines + (seq![strip_cr(curv)] + lines_from(
                    chars@.skip(i + 1),
                    Seq::empty(),
                )));
            }
        } else {
            cur.push(c);
            proof {
                assert(lines_from(rest, curv) == lines_from(rest.drop_first(), curv.push(c)));
            }
        }
        i = i + 1;
    }
    proof {
        assert(chars@.skip(chars@.len() as int) =~= Seq::<char>::empty());
    }
    if cur.len() > 0 {
        let ghost prev_lines = lines@.map_values(|l: Vec<char>| l@);
        let ghost curv = cur@;
        let done = strip_cr_vec(cur);
        lines.push(done);
        proof {
            assert(lines@.map_values(|l: Vec<char>| l@) =~= prev_lines + seq![strip_cr(curv)]);
        }
    } else {
        proof {
            assert(lines@.map_values(|l: Vec<char>| l@) + Seq::<Seq<char>>::empty()
                =~= lines@.map_values(|l: Vec<char>| l@));
        }
    }
    lines
}

/// White space dropped from both ends, executably.
fn trim_spaces(v: &Vec<char>, from: usize) -> (out: Vec<char>)
    requires
        from <= v@.len(),
    ensures
        out@ == trimmed(v@.skip(from as int)),
{
    let ghost w0 = v@.skip(from as int);
    let mut a: usize = from;
    proof {
        assert(v@.skip(a as int) =~= w0);
    }
    while a < v.len() && space_char(v[a])
        invariant
            from <= a <= v@.len(),
            trim_front(w0) == trim_front(v@.skip(a as int)),
        decreases v@.len() - a,
    {
        proof {
            assert(v@.skip(a as int)[0] == v@[a as int]);
            assert(v@.skip(a as int).drop_first() =~= v@.skip(a + 1));
        }
        a = a + 1;
    }
    let ghost w = v@.skip(a as int);
    proof {
        if a < v@.len() {
            assert(w[0] == v@[a as int]);
            assert(trim_front(w) == w);
        } else {
            assert(w =~= Seq::<char>::empty());
            assert(trim_front(w) == w);
        }
    }
    let mut b: usize = v.len();
    proof {
        assert(w.take(b - a) =~= w);
    }
    while b > a && space_char(v[b - 1])
        invariant
            a <= b <= v@.len(),
            trim_back(w) == trim_back(w.take(b - a)),
        decreases b,
    {
        proof {
            let t = w.take(b - a);
            assert(t.last() == v@[b - 1]);
            assert(t.drop_last() =~= w.take(b - 1 - a));
        }
        b = b - 1;
    }
    proof {
        let t = w.take(b - a);
        if b > a {
            assert(t.last() == v@[b - 1]);
            assert(trim_back(t) == t);
        } else {
            assert(t =~= Seq::<char>::empty());
            assert(trim_back(t) == t);
        }
    }
    let mut out: Vec<char> = Vec::new();
    let mut i: usize = a;
    while i < b
        invariant
            a <= i <= b <= v@.len(),
            out@ == v@.subrange(a as int, i as int),
        decreases b - i,
    {
        out.push(v[i]);
        proof {
            assert(v@.subrange(a as int, i as int).push(v@[i as int]) =~= v@.subrange(
                a as int,
                i + 1,
            ));
        }
        i = i + 1;
    }
    proof {
        assert(v@.subrange(a as int, b as int) =~= w.take(b - a));
    }
    out
}

/// Reads one non-blank line: the count, then the trimmed name. `None` is
/// a parse error for this line.
fn parse_line(l: &Vec<char>) -> (r: Option<(usize, Vec<char>)>)
    ensures
        match r {
            Some(entry) => line_entry(l@) == Some((entry.0 as nat, entry.1@)),
            None => line_entry(l@) is None,
        },
{
    let mut nd: usize = 0;
    while nd < l.len() && digit_char(l[nd])
        invariant
            nd <= l@.len(),
            forall|j: int| 0 <= j < nd ==> is_digit(#[trigger] l@[j]),
        decreases l@.len() - nd,
    {
        nd = nd + 1;
    }
    proof {
        lemma_digit_run_char(l@, nd as int);
    }
    if nd == 0 {
        return None;
    }
    if nd == l.len() {
        return None;
    }
    if !space_char(l[nd]) {
        return None;
    }
    let mut k: usize = 0;
    let mut over: bool = false;
    let mut j: usize = 0;
    while j < nd
        invariant
            j <= nd <= l@.len(),
            forall|t: int| 0 <= t < nd ==> is_digit(#[trigger] l@[t]),
            !over ==> k as nat == dec_val(l@.take(j as int)),
            over ==> dec_val(l@.take(j as int)) > usize::MAX as nat,
        decreases nd - j,
    {
        let ghost prevval = dec_val(l@.take(j as int));
        let c = l[j];
        let d = (c as u32 - '0' as u32) as usize;
        proof {
            assert(is_digit(l@[j as int]));
            assert(d < 10 && d as nat == crate::text::digit_val(c));
            assert(l@.take(j + 1).drop_last() =~= l@.take(j as int));
            assert(l@.take(j + 1).last() == c);
            assert(dec_val(l@.take(j + 1)) == prevval * 10 + d);
        }
        if over {
            proof {
                assert(prevval * 10 + d > usize::MAX as nat) by (nonlinear_arith)
                    requires
                        prevval > usize::MAX as nat,
                        d >= 0,
                ;
            }
        } else if k > (usize::MAX - d) / 10 {
            over = true;
            proof {
                assert(k * 10 + d > usize::MAX) by (nonlinear_arith)
                    requires
                        k > (usize::MAX - d) / 10,
                        0 <= d < 10,
                ;
            }
        } else {
            proof {
                assert(k * 10 + d <= usize::MAX) by (nonlinear_arith)
                    requires
                        k <= (usize::MAX - d) / 10,
                        0 <= d < 10,
                ;
            }
            k = k * 10 + d;
        }
        j = j + 1;
    }
    if over || k == 0 {
        return None;
    }
    let name = trim_spaces(l, nd);
    if name.len() == 0 {
        return None;
    }
    Some((k, name))
}

/// Parses a decklist: splits it into lines, skips the blank ones, reads
/// `count name` off every other, and expands each entry into `count`
/// instances numbered by one global ordinal counter that starts at 1. The
/// first malformed line aborts the parse; nothing is numbered past it.
pub fn parse_decklist(text: &str) -> (r: Result<Vec<CardInstance>, PipelineError>)
    ensures
        parse_result_view(r) == parse_spec(lines_of(text@), 1),
{
    let chars = str_chars(text);
    let lines = split_lines(&chars);
    let ghost lviews = lines@.map_values(|l: Vec<char>| l@);
    let mut out: Vec<CardInstance> = Vec::new();
    let mut ord: usize = 1;
    let mut i: usize = 0;
    proof {
        assert(lviews.skip(0) =~= lviews);
        assert(out@.map_values(|c: CardInstance| c@) =~= Seq::<InstV>::empty());
        match parse_spec(lviews, 1) {
            Ok(rest) => {
                assert(Seq::<InstV>::empty() + rest =~= rest);
            },
            Err(e) => {},
        }
    }
    while i < lines.len()
        invariant
            i <= lines@.len(),
            ord >= 1,
            match parse_spec(lviews.skip(i as int), ord as nat) {
                Ok(rest) => parse_spec(lviews, 1) == Ok::<Seq<InstV>, ErrV>(
                    out@.map_values(|c: CardInstance| c@) + rest,
                ),
                Err(e) => parse_spec(lviews, 1) == Err::<Seq<InstV>, ErrV>(e),
            },
        decreases lines@.len() - i,
    {
        let ghost lv = lviews.skip(i as int);
        proof {
            assert(lv[0] == lviews[i as int]);
            assert(lv.drop_first() =~= lviews.skip(i + 1));
        }
        let line = &lines[i];
        if line.len() > 0 {
            match parse_line(line) {
                None => {
                    proof {
                        assert(parse_spec(lv, ord as nat) == Err::<Seq<InstV>, ErrV>(ErrV::Parse { line: line@ }));
                    }
                    return Err(PipelineError::Parse { line: chars_string(line) });
                },
                Some((k, name_chars)) => {
                    if k > usize::MAX - ord {
                        proof {
                            assert(parse_spec(lv, ord as nat) == Err::<Seq<InstV>, ErrV>(
                                ErrV::Parse { line: line@ },
                            ));
                        }
                        return Err(PipelineError::Parse { line: chars_string(line) });
                    }
                    let name = chars_string(&name_chars);
                    let ghost base = out@.map_values(|c: CardInstance| c@);
                    let ghost seg = Seq::new(
                        k as nat,
                        |t: int| InstV { prefix: ordinal_prefix((ord + t) as nat), name: name@ },
                    );
                    let mut t: usize = 0;
                    proof {
                        assert(base + seg.take(0) =~= base);
                    }
                    while t < k
                        invariant
                            t <= k,
                            ord + k <= usize::MAX,
                            out@.map_values(|c: CardInstance| c@) == base + seg.take(t as int),
                        decreases k - t,
                    {
                        let ghost prev_out = out@;
                        let p = format_ordinal(ord + t);
                        out.push(CardInstance { prefix: p, name: name.clone() });
                        proof {
                            assert(seg[t as int] == InstV {
                                prefix: ordinal_prefix((ord + t) as nat),
                                name: name@,
                            });
                            let mapped = out@.map_values(|c: CardInstance| c@);
                            assert(mapped.len() == (base + seg.take(t + 1)).len());
                            assert forall|j: int| 0 <= j < mapped.len() implies #[trigger] mapped[j]
                                == (base + seg.take(t + 1))[j] by {
                                assert(mapped[j] == out@[j]@);
                                if j < prev_out.len() {
                                    assert(out@[j] == prev_out[j]);
                                    assert(prev_out.map_values(|c: CardInstance| c@)[j]
                                        == prev_out[j]@);
                                    assert((base + seg.take(t as int))[j] == (base + seg.take(
                                        t + 1,
                                    ))[j]);
                                } else {
                                    assert(out@[j].prefix@ == ordinal_prefix((ord + t) as nat));
                                    assert(out@[j].name@ == name@);
                                    assert((base + seg.take(t + 1))[j] == seg[t as int]);
                                }
                            }
                            assert(mapped =~= base + seg.take(t + 1));
                        }
                        t = t + 1;
                    }
                    proof {
                        assert(seg.take(k as int) =~= seg);
                        assert(parse_spec(lv, ord as nat) == (match parse_spec(
                            lviews.skip(i + 1),
                            (ord + k) as nat,
                        ) {
                            Err(e) => Err(e),
                            Ok(rest) => Ok(seg + rest),
                        }));
                        match parse_spec(lviews.skip(i + 1), (ord + k) as nat) {
                            Err(e) => {},
                            Ok(rest) => {
                                assert((base + seg) + rest =~= base + (seg + rest));
                            },
                        }
                    }
                    ord = ord + k;
                },
            }
        }
        i = i + 1;
    }
    proof {
        assert(lviews.skip(lviews.len() as int) =~= Seq::<Seq<char>>::empty());
        assert(out@.map_values(|c: CardInstance| c@) + Seq::<InstV>::empty() =~= out@.map_values(
            |c: CardInstance| c@,
        ));
    }
    Ok(out)
}

/// Law: parsing numbers the instances consecutively. When a decklist
/// parses from starting ordinal `ord`, the instance at position `j` of the
/// expansion carries the ordinal prefix of `ord + j`, whatever the lines
/// and the blank lines between them.
pub proof fn lemma_parse_ordinals(lines: Seq<Seq<char>>, ord: nat)
    requires
        parse_spec(lines, ord) is Ok,
    ensures
        forall|j: int|
            0 <= j < parse_spec(lines, ord)->Ok_0.len() ==> (#[trigger] parse_spec(
                lines,
                ord,
            )->Ok_0[j]).prefix == ordinal_prefix((ord + j) as nat),
    decreases lines.len(),
{
    if lines.len() == 0 {
    } else {
        let l = lines[0];
        if l.len() == 0 {
            lemma_parse_ordinals(lines.drop_first(), ord);
        } else {
            match line_entry(l) {
                None => {},
                Some((k, name)) => {
                    if ord + k > usize::MAX as nat {
                    } else {
                        lemma_parse_ordinals(lines.drop_first(), ord + k);
                        let rest = parse_spec(lines.drop_first(), ord + k)->Ok_0;
                        let whole = parse_spec(lines, ord)->Ok_0;
                        assert forall|j: int| 0 <= j < whole.len() implies (#[trigger] whole[j]).prefix
                            == ordinal_prefix((ord + j) as nat) by {
                            if j < k {
                            } else {
                                assert(whole[j] == rest[j - k]);
                            }
                        }
                    }
                },
            }
        }
    }
}

/// Law: a blank line is invisible to the sequencer. Inserting an empty
/// line anywhere in a decklist changes neither the expansion nor the
/// error.
pub proof fn lemma_blank_line_ignored(lines: Seq<Seq<char>>, i: int, ord: nat)
    requires
        0 <= i <= lines.len(),
    ensures
        parse_spec(lines.insert(i, Seq::empty()), ord) == parse_spec(lines, ord),
    decreases i,
{
    let with = lines.insert(i, Seq::empty());
    if i == 0 {
        assert(with[0].len() == 0);
        assert(with.drop_first() =~= lines);
    } else {
        assert(with[0] == lines[0]);
        assert(with.drop_first() =~= lines.drop_first().insert(i - 1, Seq::empty()));
        let l = lines[0];
        if l.len() == 0 {
            lemma_blank_line_ignored(lines.drop_first(), i - 1, ord);
        } else {
            match line_entry(l) {
                None => {},
                Some((k, name)) => {
                    if ord + k > usize::MAX as nat {
                    } else {
                        lemma_blank_line_ignored(lines.drop_first(), i - 1, ord + k);
                    }
                },
            }
        }
    }
}

} // verus!
