//! What the tokens of a text are: bytes one by one, and the markers of a conversation as a whole.

use vstd::prelude::*;
use vstd::utf8::*;

use crate::text;
use crate::tokenizer;

verus! {

proof fn lemma_no_special(v: tokenizer::Vocab, text: Seq<char>, n: int)
    requires
        0 <= n <= v.len(),
        forall|i: int|
            0 <= i < v.len() && (#[trigger] v[i]).1 >= 100001 ==> !text::occurs_at(text, v[i].0, 0),
    ensures
        tokenizer::find_special(v, text, n) is None,
    decreases n,
{
    if n > 0 {
        lemma_no_special(v, text, n - 1);
    }
}

/// A text in which no special token occurs has one token for each byte of its UTF-8: three more than
/// the byte.
pub proof fn law_plain_text_has_a_token_for_each_byte(v: tokenizer::Vocab, text: Seq<char>)
    requires
        forall|i: int, at: int|
            0 <= i < v.len() && (#[trigger] v[i]).1 >= 100001 && 0 <= at < text.len()
                ==> !#[trigger] text::occurs_at(text, v[i].0, at),
    ensures
        tokenizer::spec_encode(v, text).len() == encode_utf8(text).len(),
        forall|k: int|
            0 <= k < encode_utf8(text).len() ==> #[trigger] tokenizer::spec_encode(v, text)[k] == 3
                + encode_utf8(text)[k],
    decreases text.len(),
{
    if text.len() > 0 {
        let rest = text.skip(1);
        assert forall|i: int, at: int|
            0 <= i < v.len() && (#[trigger] v[i]).1 >= 100001 && 0 <= at < rest.len() implies !(
        #[trigger] text::occurs_at(rest, v[i].0, at)) by {
            if text::occurs_at(rest, v[i].0, at) {
                assert(text.subrange(at + 1, at + 1 + v[i].0.len()) =~= rest.subrange(
                    at,
                    at + v[i].0.len(),
                ));
                assert(text::occurs_at(text, v[i].0, at + 1));
            }
        }
        law_plain_text_has_a_token_for_each_byte(v, rest);
        assert forall|i: int| 0 <= i < v.len() && (#[trigger] v[i]).1 >= 100001 implies !(
        text::occurs_at(text, v[i].0, 0)) by {}
        lemma_no_special(v, text, v.len() as int);
        let first = seq![text[0]];
        assert(text =~= first + rest);
        tokenizer::lemma_encode_utf8_concat(first, rest);
    } else {
        assert(text =~= Seq::empty());
        assert(encode_utf8(text).len() == 0);
    }
}

/// Whether the special tokens of a vocabulary are the two markers of a conversation.
pub open spec fn has_the_markers(v: tokenizer::Vocab) -> bool {
    &&& forall|i: int|
        0 <= i < v.len() && (#[trigger] v[i]).1 >= 100001 ==> v[i] == ("<|im_start|>"@, 100001u32)
            || v[i] == ("<|im_end|>"@, 100002u32)
    &&& v.contains(("<|im_start|>"@, 100001u32))
    &&& v.contains(("<|im_end|>"@, 100002u32))
}

proof fn lemma_position(v: tokenizer::Vocab, key: Seq<char>, n: int)
    requires
        0 <= n <= v.len(),
    ensures
        match tokenizer::position(v, key, n) {
            Some(i) => 0 <= i < n && v[i].0 == key,
            None => forall|i: int| 0 <= i < n ==> (#[trigger] v[i]).0 != key,
        },
    decreases n,
{
    if n > 0 {
        lemma_position(v, key, n - 1);
    }
}

proof fn lemma_bind_keeps_the_markers(v: tokenizer::Vocab, key: Seq<char>, id: u32)
    requires
        has_the_markers(v),
        key != "<|im_start|>"@,
        key != "<|im_end|>"@,
        id < 100001,
    ensures
        has_the_markers(tokenizer::bind(v, key, id)),
{
    let w = tokenizer::bind(v, key, id);
    lemma_position(v, key, v.len() as int);
    let a = choose|a: int| 0 <= a < v.len() && v[a] == ("<|im_start|>"@, 100001u32);
    let b = choose|b: int| 0 <= b < v.len() && v[b] == ("<|im_end|>"@, 100002u32);
    assert(w[a] == v[a] && w[b] == v[b]);
    assert forall|i: int| 0 <= i < w.len() && (#[trigger] w[i]).1 >= 100001 implies w[i] == (
        "<|im_start|>"@,
        100001u32,
    ) || w[i] == ("<|im_end|>"@, 100002u32) by {
        assert(w[i] == v[i]);
    }
}

proof fn lemma_special_lexicon()
    ensures
        has_the_markers(tokenizer::special_lexicon().vocab),
        "<|im_start|>"@.len() == 12,
        "<|im_end|>"@.len() == 10,
        "<|im_start|>"@[5] == 's',
        "<|im_end|>"@[5] == 'e',
{
    reveal_strlit("<unk>");
    reveal_strlit("<s>");
    reveal_strlit("</s>");
    reveal_strlit("<|im_start|>");
    reveal_strlit("<|im_end|>");
    assert("<unk>"@.len() == 5 && "<s>"@.len() == 3 && "</s>"@.len() == 4);
    assert("<|im_start|>"@.len() == 12 && "<|im_end|>"@.len() == 10);
    let v0: tokenizer::Vocab = Seq::empty();
    lemma_position(v0, "<unk>"@, 0);
    let v1 = tokenizer::bind(v0, "<unk>"@, 0);
    assert(v1 =~= seq![("<unk>"@, 0u32)]);
    lemma_position(v1, "<s>"@, 1);
    let v2 = tokenizer::bind(v1, "<s>"@, 1);
    assert(v2 =~= seq![("<unk>"@, 0u32), ("<s>"@, 1u32)]);
    lemma_position(v2, "</s>"@, 2);
    let v3 = tokenizer::bind(v2, "</s>"@, 2);
    assert(v3 =~= seq![("<unk>"@, 0u32), ("<s>"@, 1u32), ("</s>"@, 2u32)]);
    lemma_position(v3, "<|im_start|>"@, 3);
    let v4 = tokenizer::bind(v3, "<|im_start|>"@, 100001);
    assert(v4 =~= v3.push(("<|im_start|>"@, 100001u32)));
    lemma_position(v4, "<|im_end|>"@, 4);
    let v5 = tokenizer::bind(v4, "<|im_end|>"@, 100002);
    assert(v5 =~= v4.push(("<|im_end|>"@, 100002u32)));
    assert(v5[3] == ("<|im_start|>"@, 100001u32));
    assert(v5[4] == ("<|im_end|>"@, 100002u32));
    assert(tokenizer::special_lexicon().vocab == v5);
}

proof fn lemma_base_has_the_markers(n: int)
    requires
        0 <= n <= 256,
    ensures
        has_the_markers(tokenizer::base_lexicon(n).vocab),
    decreases n,
{
    lemma_special_lexicon();
    if n > 0 {
        lemma_base_has_the_markers(n - 1);
        let key = tokenizer::byte_name(n - 1);
        assert(key.len() == 6);
        lemma_bind_keeps_the_markers(
            tokenizer::base_lexicon(n - 1).vocab,
            key,
            (3 + n - 1) as u32,
        );
    }
}

proof fn lemma_leading(v: tokenizer::Vocab, text: Seq<char>, id: u32, n: int)
    requires
        has_the_markers(v),
        0 <= n <= v.len(),
        (id == 100001 && text::occurs_at(text, "<|im_start|>"@, 0)) || (id == 100002
            && text::occurs_at(text, "<|im_end|>"@, 0)),
    ensures
        match tokenizer::find_special(v, text, n) {
            Some(i) => 0 <= i < n && v[i].1 == id && v[i].0 == (if id == 100001 {
                "<|im_start|>"@
            } else {
                "<|im_end|>"@
            }),
            None => forall|i: int| 0 <= i < n ==> (#[trigger] v[i]).1 != id,
        },
    decreases n,
{
    lemma_special_lexicon();
    if n > 0 {
        lemma_leading(v, text, id, n - 1);
        if text::occurs_at(text, "<|im_start|>"@, 0) {
            assert(text.subrange(0, 12)[5] == text[5]);
        }
        if text::occurs_at(text, "<|im_end|>"@, 0) {
            assert(text.subrange(0, 10)[5] == text[5]);
        }
    }
}

/// The tokenizer without a list has one token for each marker of a conversation, wherever it stands;
/// the rest of the text is encoded by itself.
pub proof fn law_markers_are_single_tokens(rest: Seq<char>)
    ensures
        tokenizer::spec_encode(tokenizer::base_lexicon(256).vocab, "<|im_start|>"@ + rest) == seq![
            100001u32,
        ] + tokenizer::spec_encode(tokenizer::base_lexicon(256).vocab, rest),
        tokenizer::spec_encode(tokenizer::base_lexicon(256).vocab, "<|im_end|>"@ + rest) == seq![
            100002u32,
        ] + tokenizer::spec_encode(tokenizer::base_lexicon(256).vocab, rest),
{
    let v = tokenizer::base_lexicon(256).vocab;
    lemma_special_lexicon();
    lemma_base_has_the_markers(256);
    let a = "<|im_start|>"@ + rest;
    let b = "<|im_end|>"@ + rest;
    assert(a.subrange(0, 12) =~= "<|im_start|>"@);
    assert(b.subrange(0, 10) =~= "<|im_end|>"@);
    assert(a.skip(12) =~= rest);
    assert(b.skip(10) =~= rest);
    lemma_leading(v, a, 100001, v.len() as int);
    lemma_leading(v, b, 100002, v.len() as int);
    let i = choose|i: int| 0 <= i < v.len() && v[i] == ("<|im_start|>"@, 100001u32);
    let j = choose|j: int| 0 <= j < v.len() && v[j] == ("<|im_end|>"@, 100002u32);
    assert(v[i].1 == 100001 && v[j].1 == 100002);
}

/// The numbers of the tokenizer's own tokens.
pub proof fn law_numbers_of_special_tokens()
    ensures
        tokenizer::PAD_TOKEN_ID == 0,
        tokenizer::BOS_TOKEN_ID == 1,
        tokenizer::EOS_TOKEN_ID == 2,
        tokenizer::FIRST_BYTE_TOKEN_ID == 3,
        tokenizer::FIRST_LISTED_TOKEN_ID == 1000,
        tokenizer::IM_START_TOKEN_ID == 100001,
        tokenizer::IM_END_TOKEN_ID == 100002,
{
}

proof fn lemma_hex_digit(v: int)
    requires
        0 <= v < 16,
    ensures
        tokenizer::hex_digit(v) == "0123456789ABCDEF"@[v],
{
    reveal_strlit("0123456789ABCDEF");
    let all = "0123456789ABCDEF"@;
    assert(all[0] == '0' && all[1] == '1' && all[2] == '2' && all[3] == '3');
    assert(all[4] == '4' && all[5] == '5' && all[6] == '6' && all[7] == '7');
    assert(all[8] == '8' && all[9] == '9' && all[10] == 'A' && all[11] == 'B');
    assert(all[12] == 'C' && all[13] == 'D' && all[14] == 'E' && all[15] == 'F');
}

/// The token of a byte is named `<0x`, the two digits of the byte and `>`.
pub proof fn law_names_of_bytes(b: int)
    requires
        0 <= b < 256,
    ensures
        tokenizer::byte_name(b) == "<0x"@ + seq![
            "0123456789ABCDEF"@[b / 16],
            "0123456789ABCDEF"@[b % 16],
        ] + ">"@,
{
    lemma_hex_digit(b / 16);
    lemma_hex_digit(b % 16);
    reveal_strlit("<0x");
    reveal_strlit(">");
    assert(tokenizer::byte_name(b) =~= "<0x"@ + seq![
        "0123456789ABCDEF"@[b / 16],
        "0123456789ABCDEF"@[b % 16],
    ] + ">"@);
}

/// The tokens from 3 to 258 stand for the bytes from 0 to 255; another token stands for its text, and one
/// without a text for nothing.
pub proof fn law_bytes_of_a_token(texts: Map<u32, Seq<char>>, t: u32)
    ensures
        3 <= t <= 258 ==> tokenizer::token_bytes(texts, t) == seq![(t - 3) as u8],
        !(3 <= t <= 258) && texts.dom().contains(t) ==> tokenizer::token_bytes(texts, t) == encode_utf8(
            texts[t],
        ),
        !(3 <= t <= 258) && !texts.dom().contains(t) ==> tokenizer::token_bytes(texts, t) == Seq::<
            u8,
        >::empty(),
{
}

} // verus!
