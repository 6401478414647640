//! The style string of a free-text annotation: a colour, a font name and the
//! font size, closed by the font-select marker `Tf`.

use crate::units::{
    decimal_millis, digit_text, fraction_text, in_range, is_digit, lemma_digit_text,
    lemma_text_spells_quantity, milli_text, parse_decimal, push_milli, unsigned_text,
};
use vstd::prelude::*;
use vstd::slice::slice_subrange;
use vstd::string::{is_ascii_spec_bytes, StringSliceAdditionalSpecFns};

verus! {

/// The byte separates words: a blank, a tab or a line break.
pub open spec fn is_space(b: u8) -> bool {
    b == 32 || 9 <= b <= 13
}

/// What a pass over `s` from the left has seen: the words that are closed, and
/// the word that is still open (empty where the pass stands between words).
pub open spec fn scan(s: Seq<u8>) -> (Seq<Seq<u8>>, Seq<u8>)
    decreases s.len(),
{
    if s.len() == 0 {
        (Seq::<Seq<u8>>::empty(), Seq::<u8>::empty())
    } else {
        let (closed, open) = scan(s.drop_last());
        if !is_space(s.last()) {
            (closed, open.push(s.last()))
        } else if open.len() > 0 {
            (closed.push(open), Seq::<u8>::empty())
        } else {
            (closed, open)
        }
    }
}

/// The words of `s`: its longest runs of bytes that are no separators.
pub open spec fn words(s: Seq<u8>) -> Seq<Seq<u8>> {
    let (closed, open) = scan(s);
    if open.len() > 0 {
        closed.push(open)
    } else {
        closed
    }
}

/// The font-select marker, `Tf`.
pub open spec fn marker() -> Seq<u8> {
    seq![84u8, 102u8]
}

/// The size in front of the first marker, from word `from` on, that has a
/// decimal in front of it.
pub open spec fn first_size(w: Seq<Seq<u8>>, from: int) -> Option<i64>
    decreases w.len() - from,
{
    if from >= w.len() {
        None
    } else if from >= 1 && w[from] == marker() && decimal_millis(w[from - 1]) is Some {
        Some(decimal_millis(w[from - 1]).unwrap() as i64)
    } else {
        first_size(w, from + 1)
    }
}

/// The font size that a style string names, in millis: the decimal that
/// stands right before the first marker that has one there.
pub open spec fn font_size_of(style: Seq<u8>) -> Option<i64> {
    first_size(words(style), 1)
}

/// The places of the words of `text`: for each its first byte and the byte
/// after its last.
fn word_ranges(text: &[u8]) -> (r: Vec<(usize, usize)>)
    ensures
        r@.len() == words(text@).len(),
        forall|k: int|
            0 <= k < r@.len() ==> 0 <= (#[trigger] r@[k]).0 <= r@[k].1 <= text@.len()
                && text@.subrange(r@[k].0 as int, r@[k].1 as int) == words(text@)[k],
{
    let len = text.len();
    let mut ranges: Vec<(usize, usize)> = Vec::new();
    let mut start: usize = 0;
    let mut j: usize = 0;
    assert(text@.subrange(0, 0) =~= Seq::<u8>::empty());
    while j < len
        invariant
            0 <= start <= j <= len,
            len == text@.len(),
            ranges@.len() == scan(text@.subrange(0, j as int)).0.len(),
            forall|k: int|
                0 <= k < ranges@.len() ==> 0 <= (#[trigger] ranges@[k]).0 <= ranges@[k].1 <= j
                    && text@.subrange(ranges@[k].0 as int, ranges@[k].1 as int) == scan(
                    text@.subrange(0, j as int),
                ).0[k],
            scan(text@.subrange(0, j as int)).1 == text@.subrange(start as int, j as int),
        decreases len - j,
    {
        let b = text[j];
        let ghost before = text@.subrange(0, j as int);
        let ghost after = text@.subrange(0, j + 1);
        proof {
            assert(after.drop_last() =~= before);
            assert(after.last() == b);
        }
        if b == 32 || (9 <= b && b <= 13) {
            if start < j {
                ranges.push((start, j));
            }
            start = j + 1;
            proof {
                assert(text@.subrange(start as int, j + 1) =~= Seq::<u8>::empty());
            }
        } else {
            proof {
                assert(text@.subrange(start as int, j + 1) =~= text@.subrange(
                    start as int,
                    j as int,
                ).push(b));
            }
        }
        j = j + 1;
    }
    proof {
        assert(text@.subrange(0, len as int) =~= text@);
    }
    if start < len {
        ranges.push((start, len));
    }
    ranges
}

/// The font size that a style string names, in millis, if it names one.
pub fn parse_font_size_from_da(da: &[u8]) -> (r: Option<i64>)
    ensures
        r == font_size_of(da@),
        r matches Some(size) ==> in_range(size as int),
{
    let ranges = word_ranges(da);
    let ghost w = words(da@);
    let mut i: usize = 1;
    while i < ranges.len()
        invariant
            1 <= i,
            w == words(da@),
            ranges@.len() == w.len(),
            forall|k: int|
                0 <= k < ranges@.len() ==> 0 <= (#[trigger] ranges@[k]).0 <= ranges@[k].1
                    <= da@.len() && da@.subrange(ranges@[k].0 as int, ranges@[k].1 as int) == w[k],
            first_size(w, 1) == first_size(w, i as int),
        decreases ranges.len() - i,
    {
        let (a, b) = ranges[i];
        let word = slice_subrange(da, a, b);
        assert(word@ == w[i as int]);
        if word.len() == 2 && word[0] == 84 && word[1] == 102 {
            assert(word@ =~= marker());
            let (c, d) = ranges[i - 1];
            let size = parse_decimal(slice_subrange(da, c, d));
            assert(da@.subrange(c as int, d as int) == w[i - 1]);
            if size.is_some() {
                return size;
            }
        } else {
            assert(w[i as int] != marker()) by {
                if w[i as int] == marker() {
                    assert(marker().len() == 2);
                    assert(marker()[0] == 84 && marker()[1] == 102);
                }
            }
        }
        i = i + 1;
    }
    None
}

/// What stands in front of the size in a style string that this library
/// writes: black as the colour, Helvetica as the font.
pub open spec fn style_prefix() -> Seq<u8> {
    "0 0 0 rg /Helv ".spec_bytes()
}

/// What stands behind the size: a blank and the marker.
pub open spec fn style_suffix() -> Seq<u8> {
    " Tf".spec_bytes()
}

/// The style string for a font size.
pub open spec fn style_text(font_size: int) -> Seq<u8> {
    style_prefix() + milli_text(font_size) + style_suffix()
}

/// Builds the style string for a font size.
pub fn build_style(font_size: i64) -> (r: Vec<u8>)
    ensures
        r@ == style_text(font_size as int),
{
    let mut out: Vec<u8> = Vec::new();
    out.extend_from_slice("0 0 0 rg /Helv ".as_bytes());
    push_milli(&mut out, font_size);
    out.extend_from_slice(" Tf".as_bytes());
    assert(out@ =~= style_text(font_size as int));
    out
}

/// No byte of the run separates words.
pub open spec fn no_space(run: Seq<u8>) -> bool {
    forall|i: int| 0 <= i < run.len() ==> !is_space(#[trigger] run[i])
}

/// A pass that goes on over a run without separators only makes the open
/// word longer.
proof fn lemma_scan_run(s: Seq<u8>, run: Seq<u8>)
    requires
        no_space(run),
    ensures
        scan(s + run) == (scan(s).0, scan(s).1 + run),
    decreases run.len(),
{
    if run.len() == 0 {
        assert(s + run =~= s);
        assert(scan(s).1 + run =~= scan(s).1);
    } else {
        let rest = run.drop_last();
        assert(no_space(rest)) by {
            assert forall|i: int| 0 <= i < rest.len() implies !is_space(#[trigger] rest[i]) by {
                assert(rest[i] == run[i]);
            }
        }
        lemma_scan_run(s, rest);
        assert((s + run).drop_last() =~= s + rest);
        assert((s + run).last() == run.last());
        assert(!is_space(run[run.len() - 1]));
        assert((scan(s).1 + rest).push(run.last()) =~= scan(s).1 + run);
    }
}

/// A pass that stands between words and goes on over a word and a blank has
/// closed the word.
proof fn lemma_scan_word(s: Seq<u8>, word: Seq<u8>)
    requires
        scan(s).1.len() == 0,
        word.len() > 0,
        no_space(word),
    ensures
        scan(s + word + seq![32u8]) == (scan(s).0.push(word), Seq::<u8>::empty()),
{
    lemma_scan_run(s, word);
    let t = s + word + seq![32u8];
    assert(t.drop_last() =~= s + word);
    assert(t.last() == 32);
    assert(scan(s).1 + word =~= word);
}

/// The text of a quantity is one word: it is not empty, has no blank in it,
/// and does not begin like the marker.
proof fn lemma_milli_text_is_word(v: int)
    ensures
        milli_text(v).len() > 0,
        no_space(milli_text(v)),
        milli_text(v)[0] != 84,
{
    let m = if v < 0 {
        (-v) as nat
    } else {
        v as nat
    };
    lemma_digit_text(m / 1000);
    let whole = digit_text(m / 1000);
    let frac = fraction_text(m % 1000);
    let body = unsigned_text(m);
    assert forall|i: int| 0 <= i < body.len() implies !is_space(#[trigger] body[i]) by {
        if i < whole.len() {
            assert(body[i] == whole[i]);
            assert(is_digit(whole[i]));
        } else {
            assert(body[i] == frac[i - whole.len()]);
        }
    }
    assert(body[0] == whole[0]);
    assert(is_digit(whole[0]));
    if v < 0 {
        let text = milli_text(v);
        assert forall|i: int| 0 <= i < text.len() implies !is_space(#[trigger] text[i]) by {
            if i > 0 {
                assert(text[i] == body[i - 1]);
            }
        }
    }
}

/// The words of a style string that is built for a font size.
proof fn lemma_style_words(font_size: int)
    ensures
        words(style_text(font_size)) == seq![
            seq![48u8],
            seq![48u8],
            seq![48u8],
            seq![114u8, 103u8],
            seq![47u8, 72u8, 101u8, 108u8, 118u8],
            milli_text(font_size),
            marker(),
        ],
{
    broadcast use is_ascii_spec_bytes;

    reveal_strlit("0 0 0 rg /Helv ");
    reveal_strlit(" Tf");
    assert(vstd::string::is_ascii("0 0 0 rg /Helv "));
    assert(vstd::string::is_ascii(" Tf"));
    let zero = seq![48u8];
    let rg = seq![114u8, 103u8];
    let helv = seq![47u8, 72u8, 101u8, 108u8, 118u8];
    let blank = seq![32u8];
    let size = milli_text(font_size);
    let s0 = Seq::<u8>::empty();
    let s1 = s0 + zero + blank;
    let s2 = s1 + zero + blank;
    let s3 = s2 + zero + blank;
    let s4 = s3 + rg + blank;
    let s5 = s4 + helv + blank;
    let s6 = s5 + size + blank;
    assert(style_prefix() =~= s5);
    assert(style_suffix() =~= blank + marker());
    assert(style_text(font_size) =~= s6 + marker());
    lemma_milli_text_is_word(font_size);
    assert(no_space(zero));
    assert(no_space(rg));
    assert(no_space(helv));
    assert(no_space(marker()));
    lemma_scan_word(s0, zero);
    lemma_scan_word(s1, zero);
    lemma_scan_word(s2, zero);
    lemma_scan_word(s3, rg);
    lemma_scan_word(s4, helv);
    lemma_scan_word(s5, size);
    lemma_scan_run(s6, marker());
    let closed = Seq::<Seq<u8>>::empty().push(zero).push(zero).push(zero).push(rg).push(helv).push(
        size,
    );
    assert(scan(s6).0 == closed);
    assert(scan(s6 + marker()) == (closed, Seq::<u8>::empty() + marker()));
    assert(Seq::<u8>::empty() + marker() =~= marker());
    assert(closed.push(marker()) =~= seq![zero, zero, zero, rg, helv, size, marker()]);
}

/// The font size is kept: the style string that is built for a font size
/// within range names that font size.
pub proof fn lemma_style_names_its_size(font_size: int)
    requires
        in_range(font_size),
    ensures
        font_size_of(style_text(font_size)) == Some(font_size as i64),
{
    lemma_style_words(font_size);
    lemma_text_spells_quantity(font_size);
    lemma_milli_text_is_word(font_size);
    let w = words(style_text(font_size));
    assert(w.len() == 7);
    assert(w[1] != marker()) by {
        assert(w[1].len() == 1);
    }
    assert(w[2] != marker()) by {
        assert(w[2].len() == 1);
    }
    assert(w[3] != marker()) by {
        assert(w[3][0] == 114);
        assert(marker()[0] == 84);
    }
    assert(w[4] != marker()) by {
        assert(w[4].len() == 5);
    }
    assert(w[5] != marker()) by {
        assert(marker()[0] == 84);
    }
    assert(w[6] == marker());
    reveal_with_fuel(first_size, 8);
}

} // verus!
