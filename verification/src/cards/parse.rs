//! The swipe-line grammar: `%`, stripe fields separated by `^`, then `?`
//! and a newline, with nothing after.

use vstd::prelude::*;
use vstd::string::StrSliceExecFns;

use super::{spec_parse_card, CardParse, CardView};

verus! {

/// The stripe fields of a field string: the segments between its carets.
/// An empty string holds one empty field; each caret begins a new field.
pub open spec fn split_fields(m: Seq<char>) -> Seq<Seq<char>>
    decreases m.len(),
{
    if m.len() == 0 {
        seq![Seq::<char>::empty()]
    } else if m.first() == '^' {
        seq![Seq::<char>::empty()] + split_fields(m.drop_first())
    } else {
        let rest = split_fields(m.drop_first());
        seq![seq![m.first()] + rest.first()] + rest.drop_first()
    }
}

/// A field string always splits into at least one field.
pub proof fn lemma_split_fields_len(m: Seq<char>)
    ensures
        split_fields(m).len() >= 1,
    decreases m.len(),
{
    if m.len() > 0 {
        lemma_split_fields_len(m.drop_first());
    }
}

/// Whether a field holds no `?`.
pub open spec fn no_question(f: Seq<char>) -> bool {
    forall|i: int| 0 <= i < f.len() ==> f[i] != '?'
}

/// The part of a swipe line between the leading `%` and the closing `?\n`.
pub open spec fn card_middle(s: Seq<char>) -> Seq<char> {
    s.subrange(1, s.len() - 2)
}

/// Whether a line is a well-formed swipe: framed by `%` and `?\n`, with no
/// `?` inside its final field (an earlier `?` would end the line too soon).
pub open spec fn spec_card_ok(s: Seq<char>) -> bool {
    &&& s.len() >= 3
    &&& s[0] == '%'
    &&& s[s.len() - 2] == '?'
    &&& s[s.len() - 1] == '\n'
    &&& no_question(split_fields(card_middle(s)).last())
}

/// A string without carets is a single field.
proof fn lemma_split_no_caret(m: Seq<char>)
    requires
        forall|i: int| 0 <= i < m.len() ==> m[i] != '^',
    ensures
        split_fields(m) == seq![m],
    decreases m.len(),
{
    if m.len() == 0 {
        assert(m =~= Seq::<char>::empty());
        assert(split_fields(m) =~= seq![m]);
    } else {
        assert(forall|i: int| 0 <= i < m.drop_first().len() ==> m.drop_first()[i] != '^');
        lemma_split_no_caret(m.drop_first());
        assert(seq![m.first()] + m.drop_first() =~= m);
        assert(split_fields(m) =~= seq![m]);
    }
}

/// Splitting at the first caret: everything before it is the first field,
/// and the rest splits on its own.
proof fn lemma_split_at_caret(m: Seq<char>, j: int)
    requires
        0 <= j < m.len(),
        m[j] == '^',
        forall|i: int| 0 <= i < j ==> m[i] != '^',
    ensures
        split_fields(m) == seq![m.take(j)] + split_fields(m.skip(j + 1)),
    decreases j,
{
    if j == 0 {
        assert(m.take(0) =~= Seq::<char>::empty());
        assert(m.skip(1) =~= m.drop_first());
        assert(split_fields(m) =~= seq![m.take(0)] + split_fields(m.skip(1)));
    } else {
        let w = m.drop_first();
        assert(forall|i: int| 0 <= i < j - 1 ==> w[i] != '^');
        assert(w[j - 1] == '^');
        lemma_split_at_caret(w, j - 1);
        lemma_split_fields_len(w.skip(j));
        assert(w.take(j - 1) =~= m.take(j).drop_first());
        assert(w.skip(j) =~= m.skip(j + 1));
        assert(split_fields(m) == seq![seq![m.first()] + split_fields(w).first()] + split_fields(
            w,
        ).drop_first());
        assert(split_fields(w).first() == w.take(j - 1));
        assert(seq![m.first()] + w.take(j - 1) =~= m.take(j));
        assert(split_fields(w).drop_first() =~= split_fields(w.skip(j)));
        assert(split_fields(m) =~= seq![m.take(j)] + split_fields(m.skip(j + 1)));
    }
}

/// Parse a card swipe line. Returns `Card` with the stripe fields on a
/// successful read, `BadRead` on the reader's error line, and `BadParse` if
/// the input was invalid.
#[verifier::loop_isolation(false)]
pub fn parse_card(input: &str) -> (r: CardParse)
    ensures
        r@ == spec_parse_card(input@),
{
    let ghost s = input@;
    let n = input.unicode_len();
    if n >= 4 && input.get_char(0) == '%' && input.get_char(1) == 'E' && input.get_char(2) == '?'
        && input.get_char(3) == '\n' {
        proof {
            assert(s.take(4) =~= super::bad_read_line());
        }
        if n == 4 {
            return CardParse::BadRead;
        } else {
            return CardParse::BadParse;
        }
    }
    proof {
        if s.len() >= 4 && s.take(4) == super::bad_read_line() {
            assert(s[0] == s.take(4)[0] && s[1] == s.take(4)[1] && s[2] == s.take(4)[2] && s[3]
                == s.take(4)[3]);
            assert(false);
        }
    }
    if n < 3 || input.get_char(0) != '%' || input.get_char(n - 2) != '?' || input.get_char(n - 1)
        != '\n' {
        return CardParse::BadParse;
    }
    let ghost m = card_middle(s);
    let mut fields: Vec<String> = Vec::new();
    let mut start: usize = 1;
    let mut i: usize = 1;
    proof {
        assert(m.skip(0) =~= m);
        assert(fields@.map_values(|f: String| f@) =~= Seq::<Seq<char>>::empty());
        assert(Seq::<Seq<char>>::empty() + split_fields(m) =~= split_fields(m));
    }
    while i < n - 2
        invariant
            s == input@,
            n == s.len(),
            n >= 3,
            m == card_middle(s),
            1 <= start <= i <= n - 2,
            split_fields(m) == fields@.map_values(|f: String| f@) + split_fields(
                m.skip(start - 1),
            ),
            forall|j: int| start <= j < i ==> s[j] != '^',
        decreases n - i,
    {
        if input.get_char(i) == '^' {
            let ghost pre = fields@.map_values(|f: String| f@);
            let field = input.substring_char(start, i).to_owned();
            fields.push(field);
            proof {
                let w = m.skip(start - 1);
                let j = i - start;
                assert(w[j] == s[i as int]);
                assert(forall|x: int| 0 <= x < j ==> w[x] == s[x + start]);
                lemma_split_at_caret(w, j);
                assert(w.take(j) =~= s.subrange(start as int, i as int));
                assert(w.skip(j + 1) =~= m.skip(i as int));
                assert(fields@.map_values(|f: String| f@) =~= pre.push(
                    s.subrange(start as int, i as int),
                ));
                assert(pre.push(s.subrange(start as int, i as int)) + split_fields(m.skip(i as int))
                    =~= pre + (seq![w.take(j)] + split_fields(w.skip(j + 1))));
                assert(split_fields(m) == fields@.map_values(|f: String| f@) + split_fields(
                    m.skip(i as int),
                ));
            }
            start = i + 1;
        }
        i = i + 1;
    }
    let ghost tail = m.skip(start - 1);
    proof {
        assert(forall|x: int| 0 <= x < tail.len() ==> tail[x] == s[x + start]);
        lemma_split_no_caret(tail);
        lemma_split_fields_len(m);
        assert((fields@.map_values(|f: String| f@) + seq![tail]).last() == tail);
        assert(split_fields(m).last() == tail);
    }
    let mut k: usize = start;
    while k < n - 2
        invariant
            s == input@,
            n == s.len(),
            n >= 3,
            1 <= start <= k <= n - 2,
            tail == card_middle(s).skip(start - 1),
            forall|j: int| start <= j < k ==> s[j] != '?',
        decreases n - k,
    {
        if input.get_char(k) == '?' {
            proof {
                assert(tail[k - start] == s[k as int]);
                assert(!no_question(tail));
            }
            return CardParse::BadParse;
        }
        k = k + 1;
    }
    proof {
        assert(no_question(tail)) by {
            assert(forall|x: int| 0 <= x < tail.len() ==> tail[x] == s[x + start]);
        }
        assert(spec_card_ok(s));
    }
    let last = input.substring_char(start, n - 2).to_owned();
    fields.push(last);
    proof {
        assert(tail =~= s.subrange(start as int, n - 2));
        assert(fields@.map_values(|f: String| f@) =~= split_fields(m));
    }
    CardParse::Card(fields)
}

} // verus!
