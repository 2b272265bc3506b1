//! A byte-level tokenizer with a few special tokens.

use std::collections::HashMap;
use vstd::prelude::*;
use vstd::utf8::*;

use crate::text;

verus! {

broadcast use vstd::std_specs::hash::group_hash_axioms;

pub const PAD_TOKEN_ID: u32 = 0;

pub const BOS_TOKEN_ID: u32 = 1;

pub const EOS_TOKEN_ID: u32 = 2;

pub const IM_START_TOKEN_ID: u32 = 100001;

pub const IM_END_TOKEN_ID: u32 = 100002;

/// The token of byte 0; the other bytes follow.
pub const FIRST_BYTE_TOKEN_ID: u32 = 3;

/// The number of the first token of a list given to `from_tokens`.
pub const FIRST_LISTED_TOKEN_ID: u32 = 1000;

/// Tokens by text, and texts by token.
pub struct SimpleTokenizer {
    /// Texts with their tokens; no text occurs twice.
    pub vocab: Vec<(String, u32)>,
    pub id_to_token: HashMap<u32, String>,
}

/// A vocabulary with its texts as sequences of characters.
pub type Vocab = Seq<(Seq<char>, u32)>;

pub open spec fn vocab_view(v: Seq<(String, u32)>) -> Vocab {
    Seq::new(v.len(), |i: int| (v[i].0@, v[i].1))
}

/// The first position of a text in a vocabulary, if it is among the first `n`.
pub open spec fn position(v: Vocab, key: Seq<char>, n: int) -> Option<int>
    decreases n,
{
    if n <= 0 {
        None
    } else {
        match position(v, key, n - 1) {
            Some(i) => Some(i),
            None => if v[n - 1].0 == key {
                Some(n - 1)
            } else {
                None
            },
        }
    }
}

/// The vocabulary with a text bound to a token, in its old place where it had one.
pub open spec fn bind(v: Vocab, key: Seq<char>, id: u32) -> Vocab {
    match position(v, key, v.len() as int) {
        Some(i) => v.update(i, (key, id)),
        None => v.push((key, id)),
    }
}

/// What a tokenizer knows.
#[verifier::ext_equal]
pub struct Lexicon {
    pub vocab: Vocab,
    pub texts: Map<u32, Seq<char>>,
}

impl Lexicon {
    /// The lexicon with one more token.
    pub open spec fn with(self, key: Seq<char>, id: u32) -> Lexicon {
        Lexicon { vocab: bind(self.vocab, key, id), texts: self.texts.insert(id, key) }
    }
}

impl View for SimpleTokenizer {
    type V = Lexicon;

    open spec fn view(&self) -> Lexicon {
        Lexicon {
            vocab: vocab_view(self.vocab@),
            texts: Map::new(
                |id: u32| self.id_to_token@.dom().contains(id),
                |id: u32| self.id_to_token@[id]@,
            ),
        }
    }
}

pub open spec fn hex_digit(v: int) -> char {
    if v < 10 {
        (('0' as int) + v) as char
    } else {
        (('A' as int) + v - 10) as char
    }
}

/// The name of a byte: `<0x` and its two upper-case hexadecimal digits and `>`.
pub open spec fn byte_name(b: int) -> Seq<char> {
    seq!['<', '0', 'x', hex_digit(b / 16), hex_digit(b % 16), '>']
}

/// The special tokens.
pub open spec fn special_lexicon() -> Lexicon {
    (Lexicon { vocab: Seq::empty(), texts: Map::empty() }).with("<unk>"@, PAD_TOKEN_ID).with(
        "<s>"@,
        BOS_TOKEN_ID,
    ).with("</s>"@, EOS_TOKEN_ID).with("<|im_start|>"@, IM_START_TOKEN_ID).with(
        "<|im_end|>"@,
        IM_END_TOKEN_ID,
    )
}

/// The special tokens and the first `n` bytes.
pub open spec fn base_lexicon(n: int) -> Lexicon
    decreases n,
{
    if n <= 0 {
        special_lexicon()
    } else {
        base_lexicon(n - 1).with(byte_name(n - 1), (FIRST_BYTE_TOKEN_ID + n - 1) as u32)
    }
}

/// The special tokens, the bytes and the first `n` tokens of a list.
pub open spec fn listed_lexicon(tokens: Seq<Seq<char>>, n: int) -> Lexicon
    decreases n,
{
    if n <= 0 {
        base_lexicon(256)
    } else {
        listed_lexicon(tokens, n - 1).with(
            tokens[n - 1],
            (FIRST_LISTED_TOKEN_ID + n - 1) as u32,
        )
    }
}

/// Whether entry `i` is a special token that the text begins with.
pub open spec fn special_at(v: Vocab, i: int, text: Seq<char>) -> bool {
    v[i].1 >= IM_START_TOKEN_ID && text::occurs_at(text, v[i].0, 0)
}

/// The first special token among the first `n` entries that the text begins with.
pub open spec fn find_special(v: Vocab, text: Seq<char>, n: int) -> Option<int>
    decreases n,
{
    if n <= 0 {
        None
    } else {
        match find_special(v, text, n - 1) {
            Some(i) => Some(i),
            None => if special_at(v, n - 1, text) {
                Some(n - 1)
            } else {
                None
            },
        }
    }
}

/// The special token that the text begins with.
pub open spec fn leading_special(v: Vocab, text: Seq<char>) -> Option<int> {
    find_special(v, text, v.len() as int)
}

/// Whether every special token has a text to be found by.
pub open spec fn no_empty_special(v: Vocab) -> bool {
    forall|i: int| 0 <= i < v.len() && (#[trigger] v[i]).1 >= IM_START_TOKEN_ID ==> v[i].0.len() > 0
}

/// The tokens of a row of bytes.
pub open spec fn byte_tokens(bytes: Seq<u8>) -> Seq<u32> {
    Seq::new(bytes.len(), |i: int| (FIRST_BYTE_TOKEN_ID + bytes[i]) as u32)
}

/// The tokens of a text: special tokens where they stand, the bytes of its characters elsewhere.
pub open spec fn spec_encode(v: Vocab, text: Seq<char>) -> Seq<u32>
    decreases text.len(),
{
    if text.len() == 0 {
        Seq::empty()
    } else {
        match leading_special(v, text) {
            Some(i) => if 0 < v[i].0.len() <= text.len() {
                seq![v[i].1] + spec_encode(v, text.skip(v[i].0.len() as int))
            } else {
                Seq::empty()
            },
            None => byte_tokens(encode_utf8(seq![text[0]])) + spec_encode(v, text.skip(1)),
        }
    }
}

/// The bytes of one token.
pub open spec fn token_bytes(texts: Map<u32, Seq<char>>, t: u32) -> Seq<u8> {
    if FIRST_BYTE_TOKEN_ID <= t < FIRST_BYTE_TOKEN_ID + 256 {
        seq![(t - FIRST_BYTE_TOKEN_ID) as u8]
    } else if texts.dom().contains(t) {
        encode_utf8(texts[t])
    } else {
        Seq::empty()
    }
}

/// The bytes of a list of tokens.
pub open spec fn tokens_bytes(texts: Map<u32, Seq<char>>, tokens: Seq<u32>) -> Seq<u8>
    decreases tokens.len(),
{
    if tokens.len() == 0 {
        Seq::empty()
    } else {
        tokens_bytes(texts, tokens.drop_last()) + token_bytes(texts, tokens.last())
    }
}

/// Every special token is found again by its number.
pub open spec fn consistent(l: Lexicon) -> bool {
    forall|i: int|
        0 <= i < l.vocab.len() && (#[trigger] l.vocab[i]).1 >= IM_START_TOKEN_ID
            ==> l.texts.dom().contains(l.vocab[i].1) && l.texts[l.vocab[i].1] == l.vocab[i].0
}

fn hex(v: u8) -> (r: char)
    requires
        v < 16,
    ensures
        r == hex_digit(v as int),
{
    if v < 10 {
        (48 + v) as char
    } else {
        (55 + v) as char
    }
}

fn name_of_byte(b: u8) -> (r: String)
    ensures
        r@ == byte_name(b as int),
{
    let mut s = String::new();
    s.push('<');
    s.push('0');
    s.push('x');
    s.push(hex(b / 16));
    s.push(hex(b % 16));
    s.push('>');
    assert(s@ =~= byte_name(b as int));
    s
}

/// Appends the tokens of the bytes of a character.
fn push_bytes(tokens: &mut Vec<u32>, c: char)
    ensures
        final(tokens)@ == old(tokens)@ + byte_tokens(encode_utf8(seq![c])),
{
    let ghost before = tokens@;
    let mut one = String::new();
    one.push(c);
    assert(one@ =~= seq![c]);
    let bytes = one.as_str().as_bytes();
    let ghost all = byte_tokens(bytes@);
    let mut i: usize = 0;
    assert(tokens@ =~= before + all.take(0));
    while i < bytes.len()
        invariant
            i <= bytes@.len(),
            all == byte_tokens(bytes@),
            tokens@ == before + all.take(i as int),
        decreases bytes@.len() - i,
    {
        tokens.push(FIRST_BYTE_TOKEN_ID + bytes[i] as u32);
        i += 1;
        assert(tokens@ =~= before + all.take(i as int));
    }
    assert(all.take(i as int) =~= all);
}

impl SimpleTokenizer {
    /// Binds a text and a token to each other.
    fn bind_token(&mut self, key: String, id: u32)
        ensures
            final(self)@ == old(self)@.with(key@, id),
    {
        let ghost before = self@;
        let mut i: usize = 0;
        while i < self.vocab.len()
            invariant
                i <= self.vocab@.len(),
                before == self@,
                position(before.vocab, key@, i as int) is None,
            ensures
                i <= self.vocab@.len(),
                before == self@,
                i < self.vocab@.len() ==> position(before.vocab, key@, i + 1) == Some(i as int),
                i == self.vocab@.len() ==> position(before.vocab, key@, i as int) is None,
            decreases self.vocab@.len() - i,
        {
            assert(before.vocab[i as int].0 == self.vocab@[i as int].0@);
            if self.vocab[i].0 == key {
                break;
            }
            i += 1;
        }
        self.id_to_token.insert(id, key.clone());
        if i < self.vocab.len() {
            proof {
                lemma_position_kept(before.vocab, key@, i + 1, before.vocab.len() as int);
            }
            self.vocab.set(i, (key, id));
        } else {
            self.vocab.push((key, id));
        }
        assert(self@.texts =~= before.texts.insert(id, key@));
        assert(self@.vocab =~= bind(before.vocab, key@, id));
    }

    pub fn new() -> (r: Self)
        ensures
            r@ == base_lexicon(256),
    {
        let mut t = SimpleTokenizer { vocab: Vec::new(), id_to_token: HashMap::new() };
        assert(t@.vocab =~= Seq::empty());
        assert(t@.texts =~= Map::empty());
        t.bind_token("<unk>".to_owned(), PAD_TOKEN_ID);
        t.bind_token("<s>".to_owned(), BOS_TOKEN_ID);
        t.bind_token("</s>".to_owned(), EOS_TOKEN_ID);
        t.bind_token("<|im_start|>".to_owned(), IM_START_TOKEN_ID);
        t.bind_token("<|im_end|>".to_owned(), IM_END_TOKEN_ID);
        let mut b: u32 = 0;
        while b < 256
            invariant
                b <= 256,
                t@ == base_lexicon(b as int),
            decreases 256 - b,
        {
            t.bind_token(name_of_byte(b as u8), FIRST_BYTE_TOKEN_ID + b);
            b += 1;
        }
        t
    }

    /// A tokenizer that also knows a list of tokens, numbered from 1000 on.
    pub fn from_tokens(tokens: &[String]) -> (r: Self)
        requires
            tokens@.len() + FIRST_LISTED_TOKEN_ID <= u32::MAX,
        ensures
            r@ == listed_lexicon(text::views(tokens@), tokens@.len() as int),
    {
        let mut t = SimpleTokenizer::new();
        let mut i: usize = 0;
        while i < tokens.len()
            invariant
                i <= tokens@.len(),
                tokens@.len() + FIRST_LISTED_TOKEN_ID <= u32::MAX,
                t@ == listed_lexicon(text::views(tokens@), i as int),
            decreases tokens@.len() - i,
        {
            t.bind_token(tokens[i].clone(), FIRST_LISTED_TOKEN_ID + i as u32);
            i += 1;
        }
        t
    }

    /// The entry of the special token that stands in `chars` at `at`.
    fn special_here(&self, chars: &Vec<char>, at: usize) -> (r: Option<usize>)
        requires
            at <= chars@.len(),
        ensures
            match r {
                Some(i) => i < self.vocab@.len() && leading_special(
                    self@.vocab,
                    chars@.skip(at as int),
                ) == Some(i as int) && at + self.vocab@[i as int].0@.len() <= chars@.len(),
                None => leading_special(self@.vocab, chars@.skip(at as int)) is None,
            },
    {
        let ghost rest = chars@.skip(at as int);
        let ghost v = self@.vocab;
        let mut i: usize = 0;
        while i < self.vocab.len()
            invariant
                i <= self.vocab@.len(),
                at <= chars@.len(),
                rest == chars@.skip(at as int),
                v == vocab_view(self.vocab@),
                find_special(v, rest, i as int) is None,
            decreases self.vocab@.len() - i,
        {
            assert(v[i as int].0 == self.vocab@[i as int].0@);
            if self.vocab[i].1 >= IM_START_TOKEN_ID {
                let special = text::to_chars(self.vocab[i].0.as_str());
                let here = text::matches_at(chars, &special, at);
                proof {
                    lemma_occurs_in_rest(chars@, special@, at as int);
                }
                if here {
                    proof {
                        lemma_special_kept(v, rest, i + 1, v.len() as int);
                    }
                    return Some(i);
                }
            }
            i += 1;
        }
        None
    }

    /// The tokens of a text. A special token without a text would be found everywhere and never
    /// passed, so there may be none.
    pub fn encode(&self, text: &str) -> (r: Vec<u32>)
        requires
            no_empty_special(self@.vocab),
        ensures
            r@ == spec_encode(self@.vocab, text@),
    {
        let chars = text::to_chars(text);
        let mut tokens: Vec<u32> = Vec::new();
        let mut at: usize = 0;
        assert(text@.skip(0) =~= text@);
        while at < chars.len()
            invariant
                at <= chars@.len(),
                chars@ == text@,
                no_empty_special(self@.vocab),
                tokens@ + spec_encode(self@.vocab, text@.skip(at as int)) == spec_encode(
                    self@.vocab,
                    text@,
                ),
            decreases chars@.len() - at,
        {
            let ghost rest = text@.skip(at as int);
            let ghost before = tokens@;
            match self.special_here(&chars, at) {
                Some(i) => {
                    let special = text::to_chars(self.vocab[i].0.as_str());
                    proof {
                        lemma_find_special_bound(self@.vocab, rest, self@.vocab.len() as int);
                        assert(self@.vocab[i as int].0 == special@);
                    }
                    tokens.push(self.vocab[i].1);
                    assert(rest.skip(special@.len() as int) =~= text@.skip(at + special@.len()));
                    at += special.len();
                },
                None => {
                    let c = chars[at];
                    assert(rest[0] == c);
                    push_bytes(&mut tokens, c);
                    assert(rest.skip(1) =~= text@.skip(at + 1));
                    at += 1;
                },
            }
            assert(tokens@ + spec_encode(self@.vocab, text@.skip(at as int)) =~= before
                + spec_encode(self@.vocab, rest));
        }
        assert(tokens@ + spec_encode(self@.vocab, text@.skip(at as int)) =~= tokens@);
        tokens
    }

    /// The text of a list of tokens; what is not valid UTF-8 in it is replaced.
    pub fn decode(&self, tokens: &[u32]) -> (r: String)
        ensures
            r@ == text::utf8_lossy(tokens_bytes(self@.texts, tokens@)),
            valid_utf8(tokens_bytes(self@.texts, tokens@)) ==> r@ == decode_utf8(
                tokens_bytes(self@.texts, tokens@),
            ),
    {
        let mut bytes: Vec<u8> = Vec::new();
        let mut i: usize = 0;
        while i < tokens.len()
            invariant
                i <= tokens@.len(),
                bytes@ == tokens_bytes(self@.texts, tokens@.take(i as int)),
            decreases tokens@.len() - i,
        {
            let t = tokens[i];
            assert(tokens@.take(i + 1).drop_last() =~= tokens@.take(i as int));
            if FIRST_BYTE_TOKEN_ID <= t && t < FIRST_BYTE_TOKEN_ID + 256 {
                bytes.push((t - FIRST_BYTE_TOKEN_ID) as u8);
            } else if let Some(token) = self.id_to_token.get(&t) {
                let mut more = vstd::slice::slice_to_vec(token.as_str().as_bytes());
                bytes.append(&mut more);
            }
            assert(bytes@ =~= tokens_bytes(self@.texts, tokens@.take(i as int)) + token_bytes(
                self@.texts,
                t,
            ));
            i += 1;
        }
        assert(tokens@.take(i as int) =~= tokens@);
        text::from_utf8_lossy(bytes.as_slice())
    }
}

impl Default for SimpleTokenizer {
    fn default() -> (r: Self)
        ensures
            r@ == base_lexicon(256),
    {
        SimpleTokenizer::new()
    }
}

proof fn lemma_position_kept(v: Vocab, key: Seq<char>, k: int, n: int)
    requires
        k <= n,
        position(v, key, k) is Some,
    ensures
        position(v, key, n) == position(v, key, k),
    decreases n - k,
{
    if k < n {
        lemma_position_kept(v, key, k, n - 1);
    }
}

proof fn lemma_special_kept(v: Vocab, text: Seq<char>, k: int, n: int)
    requires
        k <= n,
        find_special(v, text, k) is Some,
    ensures
        find_special(v, text, n) == find_special(v, text, k),
    decreases n - k,
{
    if k < n {
        lemma_special_kept(v, text, k, n - 1);
    }
}

proof fn lemma_occurs_in_rest(s: Seq<char>, part: Seq<char>, at: int)
    requires
        0 <= at <= s.len(),
    ensures
        text::occurs_at(s, part, at) == text::occurs_at(s.skip(at), part, 0),
{
    if at + part.len() <= s.len() {
        assert(s.subrange(at, at + part.len()) =~= s.skip(at).subrange(0, part.len() as int));
    }
}

proof fn lemma_with_keeps_consistent(l: Lexicon, key: Seq<char>, id: u32)
    requires
        consistent(l),
        no_empty_special(l.vocab),
        id < IM_START_TOKEN_ID,
    ensures
        consistent(l.with(key, id)),
        no_empty_special(l.with(key, id).vocab),
{
    let m = l.with(key, id);
    lemma_position_bound(l.vocab, key, l.vocab.len() as int);
    assert forall|i: int|
        0 <= i < m.vocab.len() && (#[trigger] m.vocab[i]).1
            >= IM_START_TOKEN_ID implies m.texts.dom().contains(m.vocab[i].1)
        && m.texts[m.vocab[i].1] == m.vocab[i].0 && m.vocab[i].0.len() > 0 by {
        assert(m.vocab[i] == l.vocab[i]);
    }
}

proof fn lemma_position_bound(v: Vocab, key: Seq<char>, n: int)
    ensures
        position(v, key, n) matches Some(i) ==> 0 <= i < n && v[i].0 == key,
    decreases n,
{
    if n > 0 {
        lemma_position_bound(v, key, n - 1);
    }
}

proof fn lemma_special_consistent()
    ensures
        consistent(special_lexicon()),
        no_empty_special(special_lexicon().vocab),
{
    reveal_strlit("<unk>");
    reveal_strlit("<s>");
    reveal_strlit("</s>");
    reveal_strlit("<|im_start|>");
    reveal_strlit("<|im_end|>");
    assert("<unk>"@.len() == 5 && "<s>"@.len() == 3 && "</s>"@.len() == 4);
    assert("<|im_start|>"@.len() == 12 && "<|im_end|>"@.len() == 10);
    let e = Lexicon { vocab: Seq::empty(), texts: Map::empty() };
    let a = e.with("<unk>"@, PAD_TOKEN_ID);
    let b = a.with("<s>"@, BOS_TOKEN_ID);
    let c = b.with("</s>"@, EOS_TOKEN_ID);
    lemma_with_keeps_consistent(e, "<unk>"@, PAD_TOKEN_ID);
    lemma_with_keeps_consistent(a, "<s>"@, BOS_TOKEN_ID);
    lemma_with_keeps_consistent(b, "</s>"@, EOS_TOKEN_ID);
    reveal_with_fuel(position, 6);
    assert(a.vocab =~= seq![("<unk>"@, PAD_TOKEN_ID)]);
    assert(b.vocab =~= seq![("<unk>"@, PAD_TOKEN_ID), ("<s>"@, BOS_TOKEN_ID)]);
    assert(c.vocab =~= seq![
        ("<unk>"@, PAD_TOKEN_ID),
        ("<s>"@, BOS_TOKEN_ID),
        ("</s>"@, EOS_TOKEN_ID),
    ]);
    let d = c.with("<|im_start|>"@, IM_START_TOKEN_ID);
    assert(d.vocab =~= c.vocab.push(("<|im_start|>"@, IM_START_TOKEN_ID)));
    let f = d.with("<|im_end|>"@, IM_END_TOKEN_ID);
    assert(f.vocab =~= d.vocab.push(("<|im_end|>"@, IM_END_TOKEN_ID)));
}

proof fn lemma_base_consistent(n: int)
    requires
        n <= 256,
    ensures
        consistent(base_lexicon(n)),
        no_empty_special(base_lexicon(n).vocab),
    decreases n,
{
    if n <= 0 {
        lemma_special_consistent();
    } else {
        lemma_base_consistent(n - 1);
        lemma_with_keeps_consistent(
            base_lexicon(n - 1),
            byte_name(n - 1),
            (FIRST_BYTE_TOKEN_ID + n - 1) as u32,
        );
    }
}

/// A tokenizer made of a list keeps every special token in place as long as no token of the list
/// takes the number of a special one, and none of them is empty: it can encode every text.
pub proof fn law_listed_tokenizer_is_consistent(tokens: Seq<Seq<char>>, n: int)
    requires
        0 <= n <= IM_START_TOKEN_ID - FIRST_LISTED_TOKEN_ID,
    ensures
        consistent(base_lexicon(256)),
        no_empty_special(base_lexicon(256).vocab),
        consistent(listed_lexicon(tokens, n)),
        no_empty_special(listed_lexicon(tokens, n).vocab),
    decreases n,
{
    lemma_base_consistent(256);
    if n > 0 {
        law_listed_tokenizer_is_consistent(tokens, n - 1);
        lemma_with_keeps_consistent(
            listed_lexicon(tokens, n - 1),
            tokens[n - 1],
            (FIRST_LISTED_TOKEN_ID + n - 1) as u32,
        );
    }
}

pub(crate) proof fn lemma_encode_utf8_concat(a: Seq<char>, b: Seq<char>)
    ensures
        encode_utf8(a + b) == encode_utf8(a) + encode_utf8(b),
    decreases a.len(),
{
    if a.len() == 0 {
        assert(a + b =~= b);
        assert(encode_utf8(a) + encode_utf8(b) =~= encode_utf8(b));
    } else {
        assert((a + b).drop_first() =~= a.drop_first() + b);
        lemma_encode_utf8_concat(a.drop_first(), b);
        assert(encode_utf8(a + b) =~= encode_utf8(a) + encode_utf8(b));
    }
}

proof fn lemma_tokens_bytes_concat(texts: Map<u32, Seq<char>>, a: Seq<u32>, b: Seq<u32>)
    ensures
        tokens_bytes(texts, a + b) == tokens_bytes(texts, a) + tokens_bytes(texts, b),
    decreases b.len(),
{
    if b.len() == 0 {
        assert(a + b =~= a);
        assert(tokens_bytes(texts, a) + tokens_bytes(texts, b) =~= tokens_bytes(texts, a));
    } else {
        assert((a + b).drop_last() =~= a + b.drop_last());
        lemma_tokens_bytes_concat(texts, a, b.drop_last());
        assert(tokens_bytes(texts, a + b) =~= tokens_bytes(texts, a) + tokens_bytes(texts, b));
    }
}

proof fn lemma_tokens_bytes_one(texts: Map<u32, Seq<char>>, t: u32)
    ensures
        tokens_bytes(texts, seq![t]) == token_bytes(texts, t),
{
    reveal_with_fuel(tokens_bytes, 2);
    assert(seq![t].drop_last() =~= Seq::<u32>::empty());
    assert(tokens_bytes(texts, seq![t]) =~= token_bytes(texts, t));
}

proof fn lemma_find_special_bound(v: Vocab, text: Seq<char>, n: int)
    ensures
        find_special(v, text, n) matches Some(i) ==> 0 <= i < n && special_at(v, i, text),
    decreases n,
{
    if n > 0 {
        lemma_find_special_bound(v, text, n - 1);
    }
}

proof fn lemma_bytes_of_byte_tokens(texts: Map<u32, Seq<char>>, bytes: Seq<u8>)
    ensures
        tokens_bytes(texts, byte_tokens(bytes)) == bytes,
    decreases bytes.len(),
{
    let tokens = byte_tokens(bytes);
    if bytes.len() > 0 {
        assert(tokens.drop_last() =~= byte_tokens(bytes.drop_last()));
        lemma_bytes_of_byte_tokens(texts, bytes.drop_last());
        assert(tokens_bytes(texts, tokens) =~= bytes);
    } else {
        assert(tokens_bytes(texts, tokens) =~= bytes);
    }
}

proof fn lemma_encoded_bytes(l: Lexicon, text: Seq<char>)
    requires
        consistent(l),
        no_empty_special(l.vocab),
    ensures
        tokens_bytes(l.texts, spec_encode(l.vocab, text)) == encode_utf8(text),
    decreases text.len(),
{
    if text.len() > 0 {
        lemma_find_special_bound(l.vocab, text, l.vocab.len() as int);
        match leading_special(l.vocab, text) {
            Some(i) => {
                let special = l.vocab[i].0;
                let n = special.len() as int;
                let rest = text.skip(n);
                lemma_encoded_bytes(l, rest);
                lemma_tokens_bytes_concat(
                    l.texts,
                    seq![l.vocab[i].1],
                    spec_encode(l.vocab, rest),
                );
                lemma_tokens_bytes_one(l.texts, l.vocab[i].1);
                assert(text =~= special + rest);
                lemma_encode_utf8_concat(special, rest);
            },
            None => {
                let one = seq![text[0]];
                let bytes = encode_utf8(one);
                let rest = text.skip(1);
                lemma_encoded_bytes(l, rest);
                lemma_tokens_bytes_concat(l.texts, byte_tokens(bytes), spec_encode(l.vocab, rest));
                lemma_bytes_of_byte_tokens(l.texts, bytes);
                assert(text =~= one + rest);
                lemma_encode_utf8_concat(one, rest);
            },
        }
    }
}

/// Decoding gives back what was encoded.
pub proof fn law_decode_inverts_encode(l: Lexicon, text: Seq<char>)
    requires
        consistent(l),
        no_empty_special(l.vocab),
    ensures
        valid_utf8(tokens_bytes(l.texts, spec_encode(l.vocab, text))),
        decode_utf8(tokens_bytes(l.texts, spec_encode(l.vocab, text))) == text,
{
    lemma_encoded_bytes(l, text);
    encode_utf8_valid_utf8(text);
    encode_utf8_decode_utf8(text);
}

/// The token of a text, if the vocabulary has it.
pub open spec fn token_of(v: Vocab, key: Seq<char>) -> Option<u32> {
    match position(v, key, v.len() as int) {
        Some(i) => Some(v[i].1),
        None => None,
    }
}

/// The last place of a text among the first `n` of a list.
pub open spec fn last_place(tokens: Seq<Seq<char>>, key: Seq<char>, n: int) -> Option<int>
    decreases n,
{
    if n <= 0 {
        None
    } else if tokens[n - 1] == key {
        Some(n - 1)
    } else {
        last_place(tokens, key, n - 1)
    }
}

proof fn lemma_position_of_changed(v: Vocab, w: Vocab, key: Seq<char>, n: int)
    requires
        n <= v.len(),
        n <= w.len(),
        forall|i: int| 0 <= i < n ==> (#[trigger] v[i]).0 == w[i].0,
    ensures
        position(v, key, n) == position(w, key, n),
    decreases n,
{
    if n > 0 {
        lemma_position_of_changed(v, w, key, n - 1);
        assert(v[n - 1].0 == w[n - 1].0);
    }
}

proof fn lemma_bind_is_read_back(v: Vocab, key: Seq<char>, id: u32, other: Seq<char>)
    ensures
        token_of(bind(v, key, id), other) == (if other == key {
            Some(id)
        } else {
            token_of(v, other)
        }),
{
    let w = bind(v, key, id);
    let n = v.len() as int;
    lemma_position_bound(v, key, n);
    lemma_position_bound(v, other, n);
    lemma_position_of_changed(v, w, other, n);
    lemma_position_of_changed(v, w, key, n);
}

/// A tokenizer made of a list has under each number from 1000 on the text at that place, and for
/// each text of the list the number of its last place; everything else is as without a list.
pub proof fn law_listed_tokens_are_found(
    tokens: Seq<Seq<char>>,
    n: int,
    i: int,
    key: Seq<char>,
    id: u32,
)
    requires
        0 <= n <= tokens.len(),
        n <= IM_START_TOKEN_ID - FIRST_LISTED_TOKEN_ID,
    ensures
        ({
            let l = listed_lexicon(tokens, n);
            let base = base_lexicon(256);
            &&& 0 <= i < n ==> l.texts.dom().contains((FIRST_LISTED_TOKEN_ID + i) as u32)
                && l.texts[(FIRST_LISTED_TOKEN_ID + i) as u32] == tokens[i]
            &&& token_of(l.vocab, key) == (match last_place(tokens, key, n) {
                Some(at) => Some((FIRST_LISTED_TOKEN_ID + at) as u32),
                None => token_of(base.vocab, key),
            })
            &&& !(FIRST_LISTED_TOKEN_ID <= id < FIRST_LISTED_TOKEN_ID + n) ==> {
                &&& l.texts.dom().contains(id) == base.texts.dom().contains(id)
                &&& l.texts[id] == base.texts[id]
            }
        }),
    decreases n,
{
    if n > 0 {
        law_listed_tokens_are_found(tokens, n - 1, i, key, id);
        let before = listed_lexicon(tokens, n - 1);
        lemma_bind_is_read_back(
            before.vocab,
            tokens[n - 1],
            (FIRST_LISTED_TOKEN_ID + n - 1) as u32,
            key,
        );
    }
}

proof fn lemma_base_texts(n: int, id: u32)
    requires
        0 <= n <= 256,
        base_lexicon(n).texts.dom().contains(id),
    ensures
        id < FIRST_BYTE_TOKEN_ID + n || id == EOS_TOKEN_ID || id == IM_START_TOKEN_ID || id
            == IM_END_TOKEN_ID,
    decreases n,
{
    if n > 0 && id != FIRST_BYTE_TOKEN_ID + n - 1 {
        lemma_base_texts(n - 1, id);
    }
}

/// A list of tokens takes no number that the tokenizer uses without it: every special token and
/// every byte keeps its text.
pub proof fn law_list_keeps_the_base_tokens(tokens: Seq<Seq<char>>, n: int, id: u32)
    requires
        0 <= n <= tokens.len(),
        n <= IM_START_TOKEN_ID - FIRST_LISTED_TOKEN_ID,
        base_lexicon(256).texts.dom().contains(id),
    ensures
        listed_lexicon(tokens, n).texts.dom().contains(id),
        listed_lexicon(tokens, n).texts[id] == base_lexicon(256).texts[id],
{
    lemma_base_texts(256, id);
    law_listed_tokens_are_found(tokens, n, 0, Seq::empty(), id);
}

} // verus!
