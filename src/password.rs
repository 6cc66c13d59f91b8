use vstd::prelude::*;

use crate::error::MarketError;

verus! {

/// How many keys make a password.
pub const PASSWORD_KEYS: usize = 6;

/// The code of one key word of a password: `left`, `right`, `up` or `down`.
pub open spec fn key_code(word: Seq<char>) -> Option<u16> {
    if word == seq!['l', 'e', 'f', 't'] {
        Some(1u16)
    } else if word == seq!['r', 'i', 'g', 'h', 't'] {
        Some(2u16)
    } else if word == seq!['u', 'p'] {
        Some(3u16)
    } else if word == seq!['d', 'o', 'w', 'n'] {
        Some(4u16)
    } else {
        None
    }
}

/// The pieces of `s` between the separators `-`, in order; a text with
/// `k` separators has `k + 1` pieces, empty ones included.
pub open spec fn dash_pieces(s: Seq<char>) -> Seq<Seq<char>>
    decreases s.len(),
{
    if s.len() == 0 {
        seq![Seq::<char>::empty()]
    } else {
        let p = dash_pieces(s.drop_last());
        if s.last() == '-' {
            p.push(Seq::<char>::empty())
        } else {
            p.update(p.len() - 1, p.last().push(s.last()))
        }
    }
}

/// The key codes that `text` spells, when it is a password: exactly
/// `PASSWORD_KEYS` key words joined by `-`.
pub open spec fn password_codes(text: Seq<char>) -> Option<Seq<u16>> {
    let pieces = dash_pieces(text);
    if pieces.len() == PASSWORD_KEYS && forall|i: int|
        0 <= i < pieces.len() ==> (#[trigger] key_code(pieces[i])) is Some {
        Some(pieces.map_values(|w: Seq<char>| key_code(w)->Some_0))
    } else {
        None
    }
}

proof fn lemma_dash_pieces_nonempty(s: Seq<char>)
    ensures
        dash_pieces(s).len() >= 1,
    decreases s.len(),
{
    if s.len() > 0 {
        lemma_dash_pieces_nonempty(s.drop_last());
    }
}

/// A password: a fixed sequence of arrow keys, which cannot change once made.
#[derive(Clone, Copy)]
pub struct Password {
    keycodes: [u16; 6],
}

impl View for Password {
    type V = Seq<u16>;

    closed spec fn view(&self) -> Seq<u16> {
        self.keycodes@
    }
}

/// The code of a key word, or `None` when it is not one.
fn word_code(word: &Vec<char>) -> (r: Option<u16>)
    ensures
        r == key_code(word@),
{
    let n = word.len();
    if n == 4 && word[0] == 'l' && word[1] == 'e' && word[2] == 'f' && word[3] == 't' {
        assert(word@ =~= seq!['l', 'e', 'f', 't']);
        Some(1)
    } else if n == 5 && word[0] == 'r' && word[1] == 'i' && word[2] == 'g' && word[3] == 'h'
        && word[4] == 't' {
        assert(word@ =~= seq!['r', 'i', 'g', 'h', 't']);
        Some(2)
    } else if n == 2 && word[0] == 'u' && word[1] == 'p' {
        assert(word@ =~= seq!['u', 'p']);
        Some(3)
    } else if n == 4 && word[0] == 'd' && word[1] == 'o' && word[2] == 'w' && word[3] == 'n' {
        assert(word@ =~= seq!['d', 'o', 'w', 'n']);
        Some(4)
    } else {
        proof {
            if word@ == seq!['l', 'e', 'f', 't'] {
                assert(word@[0] == 'l' && word@[1] == 'e' && word@[2] == 'f' && word@[3] == 't');
            }
            if word@ == seq!['r', 'i', 'g', 'h', 't'] {
                assert(word@[0] == 'r' && word@[4] == 't');
            }
            if word@ == seq!['u', 'p'] {
                assert(word@[0] == 'u' && word@[1] == 'p');
            }
            if word@ == seq!['d', 'o', 'w', 'n'] {
                assert(word@[0] == 'd' && word@[3] == 'n');
            }
        }
        None
    }
}

impl Password {
    /// A password of the given key codes.
    pub fn new(keys: [u16; 6]) -> (r: Password)
        ensures
            r@ == keys@,
    {
        Password { keycodes: keys }
    }

    /// Reads a password written as six key words joined by `-`, such as
    /// `up-up-down-down-left-right`. Anything else is refused with
    /// `InvalidArgument`.
    pub fn from_text(password: &String) -> (r: Result<Password, MarketError>)
        ensures
            r is Ok <==> password_codes(password@) is Some,
            r matches Ok(p) ==> p@ == password_codes(password@)->Some_0,
            r is Err ==> r == Err::<Password, MarketError>(MarketError::InvalidArgument),
    {
        let text = password.as_str();
        let n = text.unicode_len();
        let mut codes: Vec<u16> = Vec::new();
        let mut all_valid = true;
        let mut word: Vec<char> = Vec::new();
        let ghost mut done: Seq<Seq<char>> = Seq::empty();
        let mut i: usize = 0;
        while i < n
            invariant
                n == password@.len(),
                text@ == password@,
                i <= n,
                dash_pieces(password@.subrange(0, i as int)) == done.push(word@),
                all_valid ==> codes@.len() == done.len(),
                all_valid ==> forall|k: int|
                    0 <= k < done.len() ==> key_code(#[trigger] done[k]) == Some(codes@[k]),
                !all_valid ==> exists|k: int|
                    0 <= k < done.len() && (#[trigger] key_code(done[k])) is None,
            decreases n - i,
        {
            let c = text.get_char(i);
            let ghost prefix = password@.subrange(0, i + 1);
            assert(prefix.drop_last() =~= password@.subrange(0, i as int));
            assert(prefix.last() == c);
            if c == '-' {
                let code = word_code(&word);
                match code {
                    Some(k) => codes.push(k),
                    None => all_valid = false,
                }
                proof {
                    let ghost d0 = done;
                    done = done.push(word@);
                    assert(dash_pieces(prefix) == done.push(Seq::<char>::empty()));
                    if !all_valid {
                        if code is None {
                            assert(key_code(done[d0.len() as int]) is None);
                        } else {
                            let k = choose|k: int| 0 <= k < d0.len() && (#[trigger] key_code(d0[k])) is None;
                            assert(done[k] == d0[k]);
                        }
                    }
                }
                word = Vec::new();
                assert(word@ =~= Seq::<char>::empty());
            } else {
                let ghost w0 = word@;
                word.push(c);
                proof {
                    let p = done.push(w0);
                    assert(p.update(p.len() - 1, p.last().push(c)) =~= done.push(word@));
                }
            }
            i = i + 1;
        }
        assert(password@.subrange(0, n as int) =~= password@);
        let code = word_code(&word);
        let ghost pieces = done.push(word@);
        match code {
            Some(k) => codes.push(k),
            None => all_valid = false,
        }
        if !all_valid || codes.len() != PASSWORD_KEYS {
            proof {
                if !all_valid {
                    if code is Some {
                        let k = choose|k: int| 0 <= k < done.len() && (#[trigger] key_code(done[k])) is None;
                        assert(key_code(pieces[k]) is None);
                    } else {
                        assert(key_code(pieces[done.len() as int]) is None);
                    }
                } else {
                    assert(pieces.len() == codes@.len());
                }
            }
            return Err(MarketError::InvalidArgument);
        }
        let keys: [u16; 6] = [codes[0], codes[1], codes[2], codes[3], codes[4], codes[5]];
        proof {
            assert forall|k: int| 0 <= k < pieces.len() implies key_code(#[trigger] pieces[k]) == Some(
                codes@[k],
            ) by {
                if k < done.len() {
                } else {
                    assert(pieces[k] == word@);
                }
            }
            assert(keys@ =~= pieces.map_values(|w: Seq<char>| key_code(w)->Some_0));
        }
        Ok(Password::new(keys))
    }

    /// Whether two passwords are the same.
    pub fn compare(&self, other: Password) -> (r: bool)
        ensures
            r == (self@ == other@),
    {
        let mut i: usize = 0;
        while i < PASSWORD_KEYS
            invariant
                i <= PASSWORD_KEYS,
                self@.len() == PASSWORD_KEYS,
                other@.len() == PASSWORD_KEYS,
                forall|k: int| 0 <= k < i ==> self@[k] == other@[k],
            decreases PASSWORD_KEYS - i,
        {
            if self.keycodes[i] != other.keycodes[i] {
                return false;
            }
            i = i + 1;
        }
        assert(self@ =~= other@);
        true
    }
}

} // verus!
