use vstd::prelude::*;

verus! {

/// `c` is an ASCII letter: `'A'..='Z'` or `'a'..='z'`
/// (what `char::is_ascii_alphabetic` tests).
pub open spec fn is_ascii_letter(c: char) -> bool {
    ('A' <= c && c <= 'Z') || ('a' <= c && c <= 'z')
}

/// The ASCII letters of `s`, in their order.
pub open spec fn letters_of(s: Seq<char>) -> Seq<char> {
    s.filter(|c: char| is_ascii_letter(c))
}

fn ascii_letter(c: char) -> (b: bool)
    ensures
        b == is_ascii_letter(c),
{
    ('A' <= c && c <= 'Z') || ('a' <= c && c <= 'z')
}

/// Appends one character (`String::push`).
#[verifier::external_body]
fn push_char(s: &mut String, c: char)
    ensures
        final(s)@ == old(s)@.push(c),
{
    s.push(c);
}

/// Removes every character that is not an ASCII letter.
pub fn normalize_string(string: &str) -> (res: String)
    ensures
        res@ == letters_of(string@),
        forall|i: int| 0 <= i < res@.len() ==> is_ascii_letter(#[trigger] res@[i]),
        forall|c: char|
            #![trigger res@.contains(c)]
            res@.contains(c) <==> (string@.contains(c) && is_ascii_code(c as u32)),
{
    let mut res = String::new();
    for c in it: string.chars()
        invariant
            it.seq() == string@,
            res@ == letters_of(string@.take(it.index() as int)),
    {
        proof {
            reveal_with_fuel(Seq::filter, 1);
            assert(string@.take(it.index() + 1).drop_last() =~= string@.take(it.index() as int));
        }
        if ascii_letter(c) {
            push_char(&mut res, c);
        }
    }
    proof {
        assert(string@.take(string@.len() as int) =~= string@);
        assert forall|i: int| 0 <= i < res@.len() implies is_ascii_letter(#[trigger] res@[i]) by {
            string@.lemma_filter_pred(|c: char| is_ascii_letter(c), i);
        }
        assert forall|c: char| #![trigger res@.contains(c)]
            res@.contains(c) <==> (string@.contains(c) && is_ascii_code(c as u32)) by {
            lemma_normalize_keeps_exactly_letters(string@, c);
        }
    }
    res
}

/// The code points of the 52 ASCII letters: 65 to 90 (`A` to `Z`) and
/// 97 to 122 (`a` to `z`).
pub open spec fn is_ascii_code(code: u32) -> bool {
    (65 <= code && code <= 90) || (97 <= code && code <= 122)
}

/// Normalising keeps a character exactly when it occurs in the text and
/// its code point is one of the 52 ASCII letters; every other character
/// is dropped.
pub proof fn lemma_normalize_keeps_exactly_letters(s: Seq<char>, c: char)
    ensures
        letters_of(s).contains(c) <==> (s.contains(c) && is_ascii_code(c as u32)),
{
    assert(is_ascii_letter(c) <==> is_ascii_code(c as u32));
    if letters_of(s).contains(c) {
        s.lemma_filter_contains_rev(|ch: char| is_ascii_letter(ch), c);
        let i = choose|i: int| 0 <= i < letters_of(s).len() && letters_of(s)[i] == c;
        s.lemma_filter_pred(|ch: char| is_ascii_letter(ch), i);
    }
    if s.contains(c) && is_ascii_letter(c) {
        let i = choose|i: int| 0 <= i < s.len() && s[i] == c;
        s.lemma_filter_contains(|ch: char| is_ascii_letter(ch), i);
    }
}

/// Normalising twice gives what normalising once gives: the letters of a
/// string of letters are that string.
pub proof fn lemma_normalize_idempotent(s: Seq<char>)
    ensures
        letters_of(letters_of(s)) == letters_of(s),
    decreases s.len(),
{
    reveal_with_fuel(Seq::filter, 1);
    if s.len() > 0 {
        lemma_normalize_idempotent(s.drop_last());
        let f = letters_of(s.drop_last());
        if is_ascii_letter(s.last()) {
            assert(f.push(s.last()).drop_last() =~= f);
        }
    }
}

} // verus!
