//! Greedy, prefix-aware word wrapping.
//!
//! [`wrap_text`] splits text on single spaces into tokens and packs as many
//! tokens per line as fit within the width limit, in one left-to-right pass.
//! An optional prefix seeds the first line; continuation lines are indented
//! by as many spaces as the prefix has characters. A token longer than the
//! remaining capacity is never split: it is placed on a line of its own,
//! however long. All lengths are counted in characters.

use vstd::prelude::*;
use vstd::string::StrSliceExecFns;
use vstd::string::StringExecFns;

verus! {

/// A run of `n` space characters.
pub open spec fn spaces(n: nat) -> Seq<char> {
    Seq::new(n, |i: int| ' ')
}

/// The index of the first space in `s`, or `s.len()` if there is none.
pub open spec fn first_space(s: Seq<char>) -> int
    decreases s.len(),
{
    if s.len() == 0 {
        0
    } else if s[0] == ' ' {
        0
    } else {
        1 + first_space(s.drop_first())
    }
}

proof fn lemma_first_space_le(s: Seq<char>)
    ensures
        0 <= first_space(s) <= s.len(),
        first_space(s) < s.len() ==> s[first_space(s)] == ' ',
        forall|k: int| 0 <= k < first_space(s) ==> #[trigger] s[k] != ' ',
    decreases s.len(),
{
    if s.len() > 0 && s[0] != ' ' {
        lemma_first_space_le(s.drop_first());
        assert forall|k: int| 0 <= k < first_space(s) implies #[trigger] s[k] != ' ' by {
            if k > 0 {
                assert(s[k] == s.drop_first()[k - 1]);
            }
        }
    }
}

/// `first_space` is the one index with no space before it and a space (or the
/// end of the text) at it.
proof fn lemma_first_space_is(s: Seq<char>, i: int)
    requires
        0 <= i <= s.len(),
        forall|k: int| 0 <= k < i ==> s[k] != ' ',
        i < s.len() ==> s[i] == ' ',
    ensures
        first_space(s) == i,
    decreases s.len(),
{
    if s.len() > 0 && s[0] != ' ' {
        lemma_first_space_is(s.drop_first(), i - 1);
    }
}

/// `s` split on single spaces: always at least one token, and empty tokens
/// where two spaces stand together or a space starts or ends the text.
pub open spec fn split_spaces(s: Seq<char>) -> Seq<Seq<char>>
    decreases s.len(),
    via split_spaces_decreases
{
    let i = first_space(s);
    if i == s.len() {
        seq![s]
    } else {
        seq![s.subrange(0, i)] + split_spaces(s.subrange(i + 1, s.len() as int))
    }
}

#[via_fn]
proof fn split_spaces_decreases(s: Seq<char>) {
    lemma_first_space_le(s);
}

/// One step of the greedy wrap: the running state is the pair of flushed
/// lines and the current line. A token goes onto the current line when the
/// line, a separating space where one is needed, and the token all fit
/// within the width; otherwise the current line is flushed and a fresh line
/// starts with the continuation indent and the token. The separating space
/// is needed once any token stands on the line, that is once the line has
/// grown past the seed (the prefix or the indent, which have one length);
/// counting that space with the token it precedes is what keeps every line
/// free of trailing whitespace. A token too wide even for a fresh line is
/// placed there regardless: tokens are never split.
pub open spec fn wrap_step(
    width: int,
    indent: Seq<char>,
    st: (Seq<Seq<char>>, Seq<char>),
    tok: Seq<char>,
) -> (Seq<Seq<char>>, Seq<char>) {
    let sep: int = if st.1.len() > indent.len() {
        1
    } else {
        0
    };
    if st.1.len() + sep + tok.len() <= width {
        let cur = if sep == 1 {
            st.1.push(' ') + tok
        } else {
            st.1 + tok
        };
        (st.0, cur)
    } else {
        (st.0.push(st.1), indent + tok)
    }
}

/// The state after the first `i` tokens of `toks` have been processed,
/// starting from `st0`.
pub open spec fn wrap_fold(
    width: int,
    indent: Seq<char>,
    toks: Seq<Seq<char>>,
    st0: (Seq<Seq<char>>, Seq<char>),
    i: int,
) -> (Seq<Seq<char>>, Seq<char>)
    decreases i,
{
    if i <= 0 {
        st0
    } else {
        let prev = wrap_fold(width, indent, toks, st0, i - 1);
        wrap_step(width, indent, prev, toks[i - 1])
    }
}

/// Lines joined by single newline characters.
pub open spec fn join_lines(lines: Seq<Seq<char>>) -> Seq<char>
    decreases lines.len(),
{
    if lines.len() == 0 {
        Seq::empty()
    } else if lines.len() == 1 {
        lines[0]
    } else {
        lines[0] + seq!['\n'] + join_lines(lines.drop_first())
    }
}

proof fn lemma_join_lines_push(lines: Seq<Seq<char>>, last: Seq<char>)
    ensures
        join_lines(lines.push(last)) == if lines.len() == 0 {
            last
        } else {
            join_lines(lines) + seq!['\n'] + last
        },
    decreases lines.len(),
{
    if lines.len() == 0 {
        assert(lines.push(last) =~= seq![last]);
        assert(join_lines(seq![last]) == last);
    } else {
        lemma_join_lines_push(lines.drop_first(), last);
        assert(lines.push(last).drop_first() =~= lines.drop_first().push(last));
        if lines.len() == 1 {
            assert(lines =~= seq![lines[0]]);
            assert(join_lines(lines) == lines[0]);
        }
    }
}

/// The wrapped output as a sequence of lines: the tokens of `text` folded
/// greedily, the first line seeded with `prefix`, continuation lines with
/// `prefix.len()` spaces, and the final current line flushed at the end.
pub open spec fn wrap_lines_spec(width: int, prefix: Seq<char>, text: Seq<char>) -> Seq<
    Seq<char>,
> {
    let toks = split_spaces(text);
    let st = wrap_fold(
        width,
        spaces(prefix.len()),
        toks,
        (Seq::<Seq<char>>::empty(), prefix),
        toks.len() as int,
    );
    st.0.push(st.1)
}

/// The wrapped output as one text: the lines joined by newlines.
pub open spec fn wrap_spec(width: int, prefix: Seq<char>, text: Seq<char>) -> Seq<char> {
    join_lines(wrap_lines_spec(width, prefix, text))
}

/// The view of an optional prefix; no prefix wraps exactly as an empty one.
pub open spec fn prefix_view(prefix: Option<&str>) -> Seq<char> {
    match prefix {
        Some(p) => p@,
        None => Seq::empty(),
    }
}

/// The views of a vector of strings.
pub open spec fn str_views(v: Seq<String>) -> Seq<Seq<char>> {
    Seq::new(v.len(), |i: int| v[i]@)
}

/// A string of `n` spaces.
pub fn spaces_string(n: usize) -> (s: String)
    ensures
        s@ == spaces(n as nat),
{
    let mut s = String::new();
    let mut i: usize = 0;
    while i < n
        invariant
            i <= n,
            s@ == spaces(i as nat),
        decreases n - i,
    {
        s.append(" ");
        proof {
            reveal_strlit(" ");
            assert(s@ =~= spaces((i + 1) as nat));
        }
        i += 1;
    }
    s
}

/// `text` split on single spaces, each token its own string.
fn tokenize(text: &str) -> (toks: Vec<String>)
    ensures
        str_views(toks@) == split_spaces(text@),
{
    let n = text.unicode_len();
    let mut toks: Vec<String> = Vec::new();
    let mut pos: usize = 0;
    proof {
        assert(text@.subrange(0, n as int) =~= text@);
        assert(str_views(toks@) =~= Seq::<Seq<char>>::empty());
    }
    loop
        invariant_except_break
            pos <= n,
            n == text@.len(),
            split_spaces(text@) =~= str_views(toks@) + split_spaces(
                text@.subrange(pos as int, n as int),
            ),
        ensures
            split_spaces(text@) =~= str_views(toks@),
        decreases n - pos,
    {
        let ghost suffix = text@.subrange(pos as int, n as int);
        let mut j: usize = pos;
        while j < n && text.get_char(j) != ' '
            invariant
                pos <= j <= n,
                n == text@.len(),
                forall|k: int| pos <= k < j ==> #[trigger] text@[k] != ' ',
            decreases n - j,
        {
            j += 1;
        }
        proof {
            assert forall|k: int| 0 <= k < j - pos implies #[trigger] suffix[k] != ' ' by {
                assert(suffix[k] == text@[pos + k]);
            }
            if (j as int) - (pos as int) < suffix.len() {
                assert(suffix[j - pos] == text@[j as int]);
            }
            lemma_first_space_is(suffix, j as int - pos as int);
        }
        let token = text.substring_char(pos, j).to_owned();
        toks.push(token);
        proof {
            assert(token@ =~= suffix.subrange(0, j - pos));
        }
        if j == n {
            proof {
                assert(suffix =~= suffix.subrange(0, j - pos));
                assert(split_spaces(suffix) =~= seq![suffix]);
                assert(str_views(toks@) =~= str_views(toks@.drop_last()).push(suffix));
                assert(split_spaces(text@) =~= str_views(toks@));
            }
            break ;
        }
        proof {
            let rest = text@.subrange(j as int + 1, n as int);
            assert(suffix.subrange(j - pos + 1, suffix.len() as int) =~= rest);
            assert(split_spaces(suffix) =~= seq![token@] + split_spaces(rest));
            assert(str_views(toks@) =~= str_views(toks@.drop_last()).push(token@));
            assert(split_spaces(text@) =~= str_views(toks@) + split_spaces(rest));
        }
        pos = j + 1;
    }
    toks
}

/// Wrap `text` to `width` characters per line, greedily.
///
/// The result is the lines of [`wrap_lines_spec`] joined by newlines: the
/// prefix seeds the first line, continuation lines are indented by the
/// prefix's length in spaces, and a token longer than the remaining capacity
/// starts a new line (and is never split).
pub fn wrap_text(width: usize, prefix: Option<&str>, text: &str) -> (r: String)
    ensures
        r@ == wrap_spec(width as int, prefix_view(prefix), text@),
{
    let ghost pview = prefix_view(prefix);
    let toks = tokenize(text);
    let ghost toks_v = str_views(toks@);

    let mut current = String::new();
    let plen: usize = match prefix {
        Some(p) => {
            current.append(p);
            p.unicode_len()
        },
        None => 0,
    };
    let indent = spaces_string(plen);
    let ghost ind = spaces(pview.len());
    proof {
        assert(current@ =~= pview);
        assert(indent@ =~= ind);
    }

    let ghost st0 = (Seq::<Seq<char>>::empty(), pview);
    let mut lines: Vec<String> = Vec::new();
    let mut i: usize = 0;
    proof {
        assert(str_views(lines@) =~= Seq::<Seq<char>>::empty());
    }
    while i < toks.len()
        invariant
            i <= toks.len(),
            toks_v == str_views(toks@),
            ind == spaces(pview.len()),
            indent@ == ind,
            plen == ind.len(),
            str_views(lines@) == wrap_fold(width as int, ind, toks_v, st0, i as int).0,
            current@ == wrap_fold(width as int, ind, toks_v, st0, i as int).1,
            st0 == (Seq::<Seq<char>>::empty(), pview),
        decreases toks.len() - i,
    {
        let ghost prev = wrap_fold(width as int, ind, toks_v, st0, i as int);
        let tok_len = toks[i].as_str().unicode_len();
        let cur_len = current.as_str().unicode_len();
        let sep: usize = if cur_len > plen {
            1
        } else {
            0
        };
        if (cur_len as u128) + (sep as u128) + (tok_len as u128) <= (width as u128) {
            if sep == 1 {
                current.append(" ");
                proof {
                    reveal_strlit(" ");
                    assert(current@ =~= prev.1.push(' '));
                }
            }
            current.append(toks[i].as_str());
        } else {
            lines.push(current);
            current = indent.clone();
            current.append(toks[i].as_str());
            proof {
                assert(str_views(lines@) =~= str_views(lines@.drop_last()).push(
                    lines@.last()@,
                ));
            }
        }
        proof {
            let stepped = wrap_step(width as int, ind, prev, toks_v[i as int]);
            assert(current@ =~= stepped.1);
            assert(str_views(lines@) =~= stepped.0);
            assert(wrap_fold(width as int, ind, toks_v, st0, i as int + 1) == stepped);
        }
        i += 1;
    }
    lines.push(current);
    proof {
        assert(str_views(lines@) =~= str_views(lines@.drop_last()).push(lines@.last()@));
        assert(str_views(lines@) =~= wrap_lines_spec(width as int, pview, text@));
    }

    let ghost all_lines = str_views(lines@);
    let mut out = String::new();
    let mut k: usize = 0;
    proof {
        assert(all_lines.take(0) =~= Seq::<Seq<char>>::empty());
    }
    while k < lines.len()
        invariant
            k <= lines.len(),
            all_lines == str_views(lines@),
            out@ == join_lines(all_lines.take(k as int)),
        decreases lines.len() - k,
    {
        if k > 0 {
            out.append("\n");
            proof {
                reveal_strlit("\n");
                assert(out@ =~= join_lines(all_lines.take(k as int)) + seq!['\n']);
            }
        }
        out.append(lines[k].as_str());
        proof {
            lemma_join_lines_push(all_lines.take(k as int), all_lines[k as int]);
            assert(all_lines.take(k as int + 1) =~= all_lines.take(k as int).push(
                all_lines[k as int],
            ));
        }
        k += 1;
    }
    proof {
        assert(all_lines.take(lines@.len() as int) =~= all_lines);
    }
    out
}

/// No token is ever split, and tokens are packed greedily, so whenever every
/// token fits beside the continuation indent, every emitted line fits the
/// width. A token wider than `width - prefix.len()` instead lands on a line
/// of its own that may exceed the width.
proof fn lemma_wrap_fold_width(
    width: int,
    indent: Seq<char>,
    toks: Seq<Seq<char>>,
    st0: (Seq<Seq<char>>, Seq<char>),
    i: int,
)
    requires
        0 <= i <= toks.len(),
        forall|k: int| 0 <= k < toks.len() ==> #[trigger] toks[k].len() + indent.len() <= width,
        forall|j: int| 0 <= j < st0.0.len() ==> #[trigger] st0.0[j].len() <= width,
        st0.1.len() <= width,
    ensures
        forall|j: int|
            0 <= j < wrap_fold(width, indent, toks, st0, i).0.len() ==> #[trigger] wrap_fold(
                width,
                indent,
                toks,
                st0,
                i,
            ).0[j].len() <= width,
        wrap_fold(width, indent, toks, st0, i).1.len() <= width,
    decreases i,
{
    if i > 0 {
        lemma_wrap_fold_width(width, indent, toks, st0, i - 1);
    }
}

/// Every output line of a wrap fits the width, provided every token fits
/// beside the prefix.
pub proof fn lemma_wrap_line_widths(width: int, prefix: Seq<char>, text: Seq<char>)
    requires
        forall|k: int|
            0 <= k < split_spaces(text).len() ==> #[trigger] split_spaces(text)[k].len()
                + prefix.len() <= width,
    ensures
        forall|j: int|
            0 <= j < wrap_lines_spec(width, prefix, text).len() ==> #[trigger] wrap_lines_spec(
                width,
                prefix,
                text,
            )[j].len() <= width,
{
    let toks = split_spaces(text);
    assert(toks.len() >= 1);
    assert(toks[0].len() + prefix.len() <= width);
    lemma_wrap_fold_width(
        width,
        spaces(prefix.len()),
        toks,
        (Seq::<Seq<char>>::empty(), prefix),
        toks.len() as int,
    );
}

proof fn lemma_wrap_fold_exception(
    width: int,
    indent: Seq<char>,
    toks: Seq<Seq<char>>,
    st0: (Seq<Seq<char>>, Seq<char>),
    i: int,
)
    requires
        0 <= i <= toks.len(),
        st0.0.len() == 0,
        st0.1.len() <= width,
        indent.len() <= width,
    ensures
        forall|j: int|
            0 <= j < wrap_fold(width, indent, toks, st0, i).0.len() ==> ((#[trigger] wrap_fold(
                width,
                indent,
                toks,
                st0,
                i,
            ).0[j]).len() <= width || exists|k: int|
                0 <= k < toks.len() && wrap_fold(width, indent, toks, st0, i).0[j] == indent
                    + #[trigger] toks[k] && indent.len() + toks[k].len() > width),
        wrap_fold(width, indent, toks, st0, i).1.len() <= width || exists|k: int|
            0 <= k < toks.len() && wrap_fold(width, indent, toks, st0, i).1 == indent
                + #[trigger] toks[k] && indent.len() + toks[k].len() > width,
    decreases i,
{
    if i > 0 {
        lemma_wrap_fold_exception(width, indent, toks, st0, i - 1);
        let prev = wrap_fold(width, indent, toks, st0, i - 1);
        let tok = toks[i - 1];
        let st = wrap_fold(width, indent, toks, st0, i);
        let sep: int = if prev.1.len() > indent.len() {
            1
        } else {
            0
        };
        if prev.1.len() + sep + tok.len() <= width {
            assert(st.1.len() <= width);
        } else {
            if indent.len() + tok.len() > width {
                assert(0 <= i - 1 < toks.len() && st.1 == indent + toks[i - 1] && indent.len()
                    + toks[i - 1].len() > width);
            } else {
                assert(st.1.len() <= width);
            }
        }
    }
}

/// A line can exceed the width only through the unsplittable-token
/// exception: such a line is the continuation indent followed by a single
/// token too wide to fit beside the prefix.
pub proof fn lemma_wrap_line_width_exception(width: int, prefix: Seq<char>, text: Seq<char>)
    requires
        prefix.len() <= width,
    ensures
        forall|j: int|
            0 <= j < wrap_lines_spec(width, prefix, text).len() ==> ((#[trigger] wrap_lines_spec(
                width,
                prefix,
                text,
            )[j]).len() <= width || exists|k: int|
                0 <= k < split_spaces(text).len() && wrap_lines_spec(width, prefix, text)[j]
                    == spaces(prefix.len()) + #[trigger] split_spaces(text)[k] && prefix.len()
                    + split_spaces(text)[k].len() > width),
{
    lemma_wrap_fold_exception(
        width,
        spaces(prefix.len()),
        split_spaces(text),
        (Seq::<Seq<char>>::empty(), prefix),
        split_spaces(text).len() as int,
    );
}

/// No token of a split carries a space.
proof fn lemma_split_tokens_no_space(s: Seq<char>)
    ensures
        forall|i: int, k: int|
            0 <= i < split_spaces(s).len() && 0 <= k < split_spaces(s)[i].len()
                ==> #[trigger] split_spaces(s)[i][k] != ' ',
    decreases s.len(),
{
    lemma_first_space_le(s);
    let fs = first_space(s);
    if fs == s.len() {
        assert(split_spaces(s) =~= seq![s]);
    } else {
        let rest = s.subrange(fs + 1, s.len() as int);
        lemma_split_tokens_no_space(rest);
        assert forall|i: int, k: int|
            0 <= i < split_spaces(s).len() && 0 <= k < split_spaces(s)[i].len() implies #[trigger] split_spaces(
            s,
        )[i][k] != ' ' by {
            if i == 0 {
                assert(split_spaces(s)[0] == s.subrange(0, fs));
                assert(s.subrange(0, fs)[k] == s[k]);
            } else {
                assert(split_spaces(s)[i] == split_spaces(rest)[i - 1]);
            }
        }
    }
}

/// Every line the fold builds is nonempty and ends in a token's character,
/// never in a space, provided every token is nonempty, carries no space,
/// and fits beside the indent, and the run starts from a current line of
/// the seed length with nothing flushed yet.
proof fn lemma_wrap_fold_no_trailing(
    width: int,
    indent: Seq<char>,
    toks: Seq<Seq<char>>,
    st0: (Seq<Seq<char>>, Seq<char>),
    i: int,
)
    requires
        0 <= i <= toks.len(),
        forall|k: int| 0 <= k < toks.len() ==> 0 < #[trigger] toks[k].len(),
        forall|k: int, m: int|
            0 <= k < toks.len() && 0 <= m < toks[k].len() ==> #[trigger] toks[k][m] != ' ',
        forall|k: int| 0 <= k < toks.len() ==> #[trigger] toks[k].len() + indent.len() <= width,
        st0.0.len() == 0,
        st0.1.len() == indent.len(),
    ensures
        forall|j: int|
            0 <= j < wrap_fold(width, indent, toks, st0, i).0.len() ==> (#[trigger] wrap_fold(
                width,
                indent,
                toks,
                st0,
                i,
            ).0[j].len() > 0 && wrap_fold(width, indent, toks, st0, i).0[j].last() != ' '),
        i == 0 ==> wrap_fold(width, indent, toks, st0, i).1 == st0.1,
        i >= 1 ==> wrap_fold(width, indent, toks, st0, i).1.len() > 0 && wrap_fold(
            width,
            indent,
            toks,
            st0,
            i,
        ).1.last() != ' ',
    decreases i,
{
    if i > 0 {
        lemma_wrap_fold_no_trailing(width, indent, toks, st0, i - 1);
        let prev = wrap_fold(width, indent, toks, st0, i - 1);
        let tok = toks[i - 1];
        let cur = wrap_fold(width, indent, toks, st0, i).1;
        assert(tok.last() != ' ');
        if i - 1 == 0 {
            assert(prev.1.len() + tok.len() <= width);
            assert(cur == prev.1 + tok);
            assert(cur.last() == tok.last());
        } else {
            assert(cur.last() == tok.last());
        }
    }
}

/// No output line of a wrap is empty or ends in a space, provided every
/// token is nonempty and fits beside the prefix.
pub proof fn lemma_wrap_no_trailing_space(width: int, prefix: Seq<char>, text: Seq<char>)
    requires
        forall|k: int|
            0 <= k < split_spaces(text).len() ==> 0 < #[trigger] split_spaces(text)[k].len(),
        forall|k: int|
            0 <= k < split_spaces(text).len() ==> #[trigger] split_spaces(text)[k].len()
                + prefix.len() <= width,
    ensures
        forall|j: int|
            0 <= j < wrap_lines_spec(width, prefix, text).len() ==> (#[trigger] wrap_lines_spec(
                width,
                prefix,
                text,
            )[j].len() > 0 && wrap_lines_spec(width, prefix, text)[j].last() != ' '),
{
    lemma_split_tokens_no_space(text);
    let toks = split_spaces(text);
    assert(toks.len() >= 1);
    lemma_wrap_fold_no_trailing(
        width,
        spaces(prefix.len()),
        toks,
        (Seq::<Seq<char>>::empty(), prefix),
        toks.len() as int,
    );
}

/// Wrapping is the identity on a single token that already fits the width:
/// wrapping already-wrapped text of one line changes nothing.
pub proof fn lemma_wrap_single_token_identity(width: int, text: Seq<char>)
    requires
        forall|k: int| 0 <= k < text.len() ==> #[trigger] text[k] != ' ',
        text.len() <= width,
    ensures
        wrap_spec(width, Seq::empty(), text) == text,
{
    lemma_first_space_is(text, text.len() as int);
    assert(split_spaces(text) =~= seq![text]);
    let toks = split_spaces(text);
    let st0 = (Seq::<Seq<char>>::empty(), Seq::<char>::empty());
    let st1 = wrap_fold(width, spaces(0), toks, st0, 1);
    reveal_with_fuel(wrap_fold, 2);
    assert(st1 == wrap_step(width, spaces(0), st0, text));
    assert(Seq::<char>::empty() + text =~= text);
    assert(st1.1 =~= text);
    assert(wrap_lines_spec(width, Seq::empty(), text) =~= seq![text]);
    assert(join_lines(seq![text]) == text);
}

} // verus!

