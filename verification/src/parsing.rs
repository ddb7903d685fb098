//! Markup parser for response pages.
//!
//! A raw page is split into candidate lines; a line in the standard dialect
//! (`* <sm2>file</sm2> utterance…`) or the tabular dialect
//! (`| … | utterance | <tag>file</tag>`, optionally two alternates separated
//! by a break tag) yields one or two (file, utterance) records. The grammar
//! is stated by spec functions over `Seq<char>`; the executable parser walks
//! an explicit cursor and is proved to return exactly what the grammar says.
//! A line that does not fit its dialect yields nothing and is skipped.

use vstd::prelude::*;
use crate::strutil::{
    chars_of, find_at, find_pat, lemma_find_at, lemma_skip_spaces, skip_spaces, skip_spaces_exec,
    string_from_chars,
};

verus! {

/// One parsed record: a raw audio-file reference and the utterance text.
#[derive(Debug, Clone, PartialEq)]
pub struct Response {
    pub file: String,
    pub response: String,
}

/// Position just past an opening angle tag `<…>` and the spaces after it,
/// when one starts at `pos`.
pub open spec fn open_tag_end(s: Seq<char>, pos: int) -> Option<int> {
    if 0 <= pos < s.len() && s[pos] == '<' {
        match find_at(s, pos + 1, seq!['>']) {
            None => None,
            Some(g) => Some(skip_spaces(s, g + 1)),
        }
    } else {
        None
    }
}

/// Position just past a closing angle tag `</…>` and the spaces after it,
/// when one starts at `pos`.
pub open spec fn close_tag_end(s: Seq<char>, pos: int) -> Option<int> {
    if 0 <= pos && pos + 2 <= s.len() && s[pos] == '<' && s[pos + 1] == '/' {
        match find_at(s, pos + 2, seq!['>']) {
            None => None,
            Some(g) => Some(skip_spaces(s, g + 1)),
        }
    } else {
        None
    }
}

/// A complete `<tag>inner</tag>` pair starting at `pos`: the position past it
/// and the inner text (everything between the opening tag and the next `<`,
/// which must begin a closing tag).
pub open spec fn complete_tag(s: Seq<char>, pos: int) -> Option<(int, Seq<char>)> {
    match open_tag_end(s, pos) {
        None => None,
        Some(p1) => match find_at(s, p1, seq!['<']) {
            None => None,
            Some(h) => match close_tag_end(s, h) {
                None => None,
                Some(p2) => Some((p2, s.subrange(p1, h))),
            },
        },
    }
}

/// An angle tag at `pos`, either a complete pair or a lone opening tag.
pub open spec fn angle_tag_end(s: Seq<char>, pos: int) -> Option<int> {
    match complete_tag(s, pos) {
        Some((p, _)) => Some(p),
        None => open_tag_end(s, pos),
    }
}

/// A successfully recognized tag always makes progress and stays in bounds.
pub proof fn lemma_tag_ends(s: Seq<char>, pos: int)
    requires
        0 <= pos <= s.len(),
    ensures
        open_tag_end(s, pos) matches Some(p) ==> pos + 2 <= p <= s.len(),
        close_tag_end(s, pos) matches Some(p) ==> pos + 3 <= p <= s.len(),
        complete_tag(s, pos) matches Some(r) ==> pos + 2 <= r.0 <= s.len(),
        angle_tag_end(s, pos) matches Some(p) ==> pos + 2 <= p <= s.len(),
{
    if 0 <= pos < s.len() && s[pos] == '<' {
        lemma_find_at(s, pos + 1, seq!['>']);
        if let Some(g) = find_at(s, pos + 1, seq!['>']) {
            lemma_skip_spaces(s, g + 1);
            let p1 = skip_spaces(s, g + 1);
            lemma_find_at(s, p1, seq!['<']);
            if let Some(h) = find_at(s, p1, seq!['<']) {
                if 0 <= h && h + 2 <= s.len() && s[h] == '<' && s[h + 1] == '/' {
                    lemma_find_at(s, h + 2, seq!['>']);
                    if let Some(g2) = find_at(s, h + 2, seq!['>']) {
                        lemma_skip_spaces(s, g2 + 1);
                    }
                }
            }
        }
    }
    if 0 <= pos && pos + 2 <= s.len() && s[pos] == '<' && s[pos + 1] == '/' {
        lemma_find_at(s, pos + 2, seq!['>']);
        if let Some(g) = find_at(s, pos + 2, seq!['>']) {
            lemma_skip_spaces(s, g + 1);
        }
    }
}

/// A character that ends a run of plain utterance text.
pub open spec fn is_stop_char(c: char) -> bool {
    c == '{' || c == '[' || c == '<' || c == '\n' || c == '\r'
}

/// End of the run of plain characters starting at `pos`.
pub open spec fn plain_run_end(s: Seq<char>, pos: int) -> int
    decreases s.len() - pos,
{
    if pos < 0 || pos >= s.len() {
        pos
    } else if is_stop_char(s[pos]) {
        pos
    } else {
        plain_run_end(s, pos + 1)
    }
}

/// A plain run stays in bounds and ends on a stop character.
pub proof fn lemma_plain_run_end(s: Seq<char>, pos: int)
    requires
        0 <= pos <= s.len(),
    ensures
        pos <= plain_run_end(s, pos) <= s.len(),
    decreases s.len() - pos,
{
    if pos < s.len() && !is_stop_char(s[pos]) {
        lemma_plain_run_end(s, pos + 1);
    }
}

/// The utterance text assembled from `s` starting at `pos`: double-curly tags
/// vanish, double-square tags vanish when piped and contribute their content
/// otherwise, single-square tags contribute their content, angle tags vanish,
/// and plain runs contribute themselves. `None` when a tag is unterminated or
/// the text cannot advance.
pub open spec fn utterance_from(s: Seq<char>, pos: int) -> Option<Seq<char>>
    decreases s.len() - pos,
    when 0 <= pos <= s.len()
{
    if pos >= s.len() {
        Some(Seq::empty())
    } else if pos + 2 <= s.len() && s[pos] == '{' && s[pos + 1] == '{' {
        match find_at(s, pos + 2, seq!['}', '}']) {
            None => None,
            Some(j) => {
                proof {
                    lemma_find_at(s, pos + 2, seq!['}', '}']);
                    lemma_skip_spaces(s, j + 2);
                }
                utterance_from(s, skip_spaces(s, j + 2))
            },
        }
    } else if pos + 2 <= s.len() && s[pos] == '[' && s[pos + 1] == '[' {
        match find_at(s, pos + 2, seq![']', ']']) {
            None => None,
            Some(j) => {
                proof {
                    lemma_find_at(s, pos + 2, seq![']', ']']);
                    lemma_skip_spaces(s, j + 2);
                }
                if s.subrange(pos + 2, j).contains('|') {
                    utterance_from(s, skip_spaces(s, j + 2))
                } else {
                    match utterance_from(s, j + 2) {
                        None => None,
                        Some(rest) => Some(s.subrange(pos + 2, j) + rest),
                    }
                }
            },
        }
    } else if s[pos] == '[' {
        match find_at(s, pos + 1, seq![']']) {
            None => None,
            Some(j) => {
                proof {
                    lemma_find_at(s, pos + 1, seq![']']);
                }
                match utterance_from(s, j + 1) {
                    None => None,
                    Some(rest) => Some(s.subrange(pos + 1, j) + rest),
                }
            },
        }
    } else if s[pos] == '<' {
        match angle_tag_end(s, pos) {
            None => None,
            Some(p) => {
                proof {
                    lemma_tag_ends(s, pos);
                }
                utterance_from(s, p)
            },
        }
    } else {
        let e = plain_run_end(s, pos);
        if e == pos {
            None
        } else {
            proof {
                lemma_plain_run_end(s, pos);
            }
            match utterance_from(s, e) {
                None => None,
                Some(rest) => Some(s.subrange(pos, e) + rest),
            }
        }
    }
}

/// The utterance text of a whole record remainder: leading spaces skipped,
/// then assembled to the end.
pub open spec fn utterance(s: Seq<char>) -> Option<Seq<char>> {
    utterance_from(s, skip_spaces(s, 0))
}

fn open_tag_end_exec(v: &Vec<char>, pos: usize) -> (r: Option<usize>)
    requires
        pos <= v@.len(),
    ensures
        match r {
            Some(p) => open_tag_end(v@, pos as int) == Some(p as int) && pos < p <= v@.len(),
            None => open_tag_end(v@, pos as int) is None,
        },
{
    if pos < v.len() && v[pos] == '<' {
        let gt: Vec<char> = vec!['>'];
        proof {
            assert(gt@ =~= seq!['>']);
        }
        match find_pat(v, pos + 1, &gt) {
            Some(g) => {
                proof {
                    lemma_find_at(v@, pos + 1 as int, seq!['>']);
                }
                Some(skip_spaces_exec(v, g + 1))
            },
            None => None,
        }
    } else {
        None
    }
}

fn close_tag_end_exec(v: &Vec<char>, pos: usize) -> (r: Option<usize>)
    requires
        pos <= v@.len(),
    ensures
        match r {
            Some(p) => close_tag_end(v@, pos as int) == Some(p as int) && pos < p <= v@.len(),
            None => close_tag_end(v@, pos as int) is None,
        },
{
    if pos < v.len() && v[pos] == '<' && pos + 1 < v.len() && v[pos + 1] == '/' {
        let gt: Vec<char> = vec!['>'];
        proof {
            assert(gt@ =~= seq!['>']);
        }
        match find_pat(v, pos + 2, &gt) {
            Some(g) => {
                proof {
                    lemma_find_at(v@, pos + 2 as int, seq!['>']);
                }
                Some(skip_spaces_exec(v, g + 1))
            },
            None => None,
        }
    } else {
        None
    }
}

fn complete_tag_exec(v: &Vec<char>, pos: usize) -> (r: Option<(usize, Vec<char>)>)
    requires
        pos <= v@.len(),
    ensures
        match r {
            Some((p, inner)) => complete_tag(v@, pos as int) == Some((p as int, inner@)) && pos < p
                <= v@.len(),
            None => complete_tag(v@, pos as int) is None,
        },
{
    let p1 = match open_tag_end_exec(v, pos) {
        Some(p1) => p1,
        None => {
            return None;
        },
    };
    let lt: Vec<char> = vec!['<'];
    proof {
        assert(lt@ =~= seq!['<']);
    }
    let h = match find_pat(v, p1, &lt) {
        Some(h) => h,
        None => {
            return None;
        },
    };
    proof {
        lemma_find_at(v@, p1 as int, seq!['<']);
    }
    match close_tag_end_exec(v, h) {
        Some(p2) => {
            let inner = crate::strutil::copy_range(v, p1, h);
            Some((p2, inner))
        },
        None => None,
    }
}

fn angle_tag_end_exec(v: &Vec<char>, pos: usize) -> (r: Option<usize>)
    requires
        pos <= v@.len(),
    ensures
        match r {
            Some(p) => angle_tag_end(v@, pos as int) == Some(p as int) && pos < p <= v@.len(),
            None => angle_tag_end(v@, pos as int) is None,
        },
{
    match complete_tag_exec(v, pos) {
        Some((p, _inner)) => Some(p),
        None => open_tag_end_exec(v, pos),
    }
}

fn plain_run_end_exec(v: &Vec<char>, from: usize) -> (r: usize)
    requires
        from <= v@.len(),
    ensures
        r as int == plain_run_end(v@, from as int),
        from <= r <= v@.len(),
{
    let mut i: usize = from;
    while i < v.len() && !(v[i] == '{' || v[i] == '[' || v[i] == '<' || v[i] == '\n' || v[i]
        == '\r')
        invariant
            from <= i <= v@.len(),
            plain_run_end(v@, from as int) == plain_run_end(v@, i as int),
        decreases v@.len() - i,
    {
        i = i + 1;
    }
    i
}

/// Assemble the utterance text of `v` from position `start` on, following the
/// grammar of `utterance_from`.
fn utterance_exec(v: &Vec<char>, start: usize) -> (r: Option<Vec<char>>)
    requires
        start <= v@.len(),
    ensures
        match r {
            Some(u) => utterance_from(v@, start as int) == Some(u@),
            None => utterance_from(v@, start as int) is None,
        },
{
    let ghost s = v@;
    let mut pos = start;
    let mut out: Vec<char> = Vec::new();
    while pos < v.len()
        invariant
            start <= pos <= v@.len(),
            s == v@,
            utterance_from(s, start as int) == (match utterance_from(s, pos as int) {
                None => None::<Seq<char>>,
                Some(rest) => Some(out@ + rest),
            }),
        decreases v@.len() - pos,
    {
        let ghost old_pos = pos as int;
        let ghost old_out = out@;
        if pos + 1 < v.len() && v[pos] == '{' && v[pos + 1] == '{' {
            let pat: Vec<char> = vec!['}', '}'];
            proof {
                assert(pat@ =~= seq!['}', '}']);
            }
            match find_pat(v, pos + 2, &pat) {
                None => {
                    return None;
                },
                Some(j) => {
                    proof {
                        lemma_find_at(s, old_pos + 2, seq!['}', '}']);
                    }
                    pos = skip_spaces_exec(v, j + 2);
                },
            }
        } else if pos + 1 < v.len() && v[pos] == '[' && v[pos + 1] == '[' {
            let pat: Vec<char> = vec![']', ']'];
            proof {
                assert(pat@ =~= seq![']', ']']);
            }
            match find_pat(v, pos + 2, &pat) {
                None => {
                    return None;
                },
                Some(j) => {
                    proof {
                        lemma_find_at(s, old_pos + 2, seq![']', ']']);
                    }
                    if crate::strutil::contains_char_range(v, pos + 2, j, '|') {
                        pos = skip_spaces_exec(v, j + 2);
                    } else {
                        crate::strutil::append_range(&mut out, v, pos + 2, j);
                        pos = j + 2;
                        proof {
                            lemma_seq_assoc(old_out, s.subrange(old_pos + 2, pos - 2), s, pos as int);
                        }
                    }
                },
            }
        } else if v[pos] == '[' {
            let pat: Vec<char> = vec![']'];
            proof {
                assert(pat@ =~= seq![']']);
            }
            match find_pat(v, pos + 1, &pat) {
                None => {
                    return None;
                },
                Some(j) => {
                    proof {
                        lemma_find_at(s, old_pos + 1, seq![']']);
                    }
                    crate::strutil::append_range(&mut out, v, pos + 1, j);
                    pos = j + 1;
                    proof {
                        lemma_seq_assoc(old_out, s.subrange(old_pos + 1, pos - 1), s, pos as int);
                    }
                },
            }
        } else if v[pos] == '<' {
            match angle_tag_end_exec(v, pos) {
                None => {
                    return None;
                },
                Some(p) => {
                    pos = p;
                },
            }
        } else {
            let e = plain_run_end_exec(v, pos);
            if e == pos {
                return None;
            }
            crate::strutil::append_range(&mut out, v, pos, e);
            pos = e;
            proof {
                lemma_seq_assoc(old_out, s.subrange(old_pos, pos as int), s, pos as int);
            }
        }
    }
    proof {
        assert(utterance_from(s, pos as int) == Some(Seq::<char>::empty()));
        assert(out@ + Seq::<char>::empty() =~= out@);
    }
    Some(out)
}

/// Regrouping an appended fragment with the rest of the utterance.
proof fn lemma_seq_assoc(a: Seq<char>, b: Seq<char>, s: Seq<char>, pos: int)
    ensures
        utterance_from(s, pos) matches Some(rest) ==> (a + b) + rest =~= a + (b + rest),
{
}

/// ASCII uppercasing; other characters are unchanged.
pub open spec fn to_upper(c: char) -> char {
    if ('a' as u32) <= (c as u32) && (c as u32) <= ('z' as u32) {
        ((c as u32) - 32) as char
    } else {
        c
    }
}

/// A raw file token cleaned up into a file reference: underscores become
/// spaces and the first character is uppercased.
pub open spec fn file_token_clean(f: Seq<char>) -> Seq<char>
    recommends
        f.len() > 0,
{
    let m = f.map_values(|c: char| if c == '_' { ' ' } else { c });
    seq![to_upper(m[0])] + m.skip(1)
}

/// The records of one standard-dialect line: everything up to the first tag is
/// ignored, the tag pair names the audio file, the rest is the utterance.
pub open spec fn std_line_records(s: Seq<char>) -> Option<Seq<(Seq<char>, Seq<char>)>> {
    if s.len() == 0 || s[0] != '*' {
        None
    } else {
        match find_at(s, 0, seq!['<']) {
            None => None,
            Some(b) => match complete_tag(s, b) {
                None => None,
                Some((p, file_raw)) => {
                    if file_raw.len() == 0 {
                        None
                    } else {
                        match utterance_from(s, skip_spaces(s, p)) {
                            None => None,
                            Some(utt) => Some(seq![(file_token_clean(file_raw), utt)]),
                        }
                    }
                },
            },
        }
    }
}

/// The break-tag literal that separates two alternates.
pub open spec fn br_tag() -> Seq<char> {
    seq!['<', 'b', 'r', '>']
}

/// The records of one tabular-dialect line. The first `|…|` cell is
/// discarded. If a break tag stands before the next `|`, the line carries two
/// alternates: two utterances separated by a tag, then two file tags separated
/// by a tag. Otherwise it carries one utterance and one file tag. Tabular
/// file references are taken as they stand.
pub open spec fn vgs_line_records(s: Seq<char>) -> Option<Seq<(Seq<char>, Seq<char>)>> {
    if s.len() == 0 || s[0] != '|' {
        None
    } else {
        match find_at(s, 1, seq!['|']) {
            None => None,
            Some(b) => {
                let p = skip_spaces(s, b + 1);
                let bar2 = find_at(s, p, seq!['|']);
                let br = find_at(s, p, br_tag());
                if br is Some && bar2 is Some && br->0 < bar2->0 {
                    vgs_dual_records(s, p)
                } else {
                    vgs_single_records(s, p)
                }
            },
        }
    }
}

/// The single-alternate tail of a tabular line, from position `p`.
pub open spec fn vgs_single_records(s: Seq<char>, p: int) -> Option<Seq<(Seq<char>, Seq<char>)>>
    recommends
        0 <= p <= s.len(),
{
    match find_at(s, p, seq!['|']) {
        None => None,
        Some(q) => {
            let resp = s.subrange(p, q);
            let r = skip_spaces(s, q + 1);
            match complete_tag(s, r) {
                None => None,
                Some((_, file)) => Some(seq![(file, resp)]),
            }
        },
    }
}

/// The dual-alternate tail of a tabular line, from position `p`.
pub open spec fn vgs_dual_records(s: Seq<char>, p: int) -> Option<Seq<(Seq<char>, Seq<char>)>>
    recommends
        0 <= p <= s.len(),
{
    match find_at(s, p, seq!['<']) {
        None => None,
        Some(h) => {
            let resp1 = s.subrange(p, h);
            match angle_tag_end(s, h) {
                None => None,
                Some(a) => {
                    let a2 = skip_spaces(s, a);
                    match find_at(s, a2, seq!['|']) {
                        None => None,
                        Some(q) => {
                            let resp2 = s.subrange(a2, q);
                            let r = skip_spaces(s, q + 1);
                            match complete_tag(s, r) {
                                None => None,
                                Some((r2, f1)) => {
                                    match angle_tag_end(s, r2) {
                                        None => None,
                                        Some(r3) => {
                                            match complete_tag(s, r3) {
                                                None => None,
                                                Some((_, f2)) => Some(
                                                    seq![(f1, resp1), (f2, resp2)],
                                                ),
                                            }
                                        },
                                    }
                                },
                            }
                        },
                    }
                },
            }
        },
    }
}

/// The records of one candidate line, whichever dialect its first character
/// announces.
pub open spec fn line_records(s: Seq<char>) -> Option<Seq<(Seq<char>, Seq<char>)>> {
    if s.len() > 0 && s[0] == '*' {
        std_line_records(s)
    } else {
        vgs_line_records(s)
    }
}

/// The views of parsed (file, utterance) pairs.
pub open spec fn pair_views(rs: Seq<(String, String)>) -> Seq<(Seq<char>, Seq<char>)> {
    rs.map_values(|p: (String, String)| (p.0@, p.1@))
}

/// Executable form of `to_upper`.
fn to_upper_exec(c: char) -> (r: char)
    ensures
        r == to_upper(c),
{
    let u = c as u32;
    if 97 <= u && u <= 122 {
        let b = c as u8;
        let l = (b - 32) as char;
        assert(l == to_upper(c));
        l
    } else {
        c
    }
}

fn file_token_clean_exec(f: &Vec<char>) -> (r: Vec<char>)
    requires
        f@.len() > 0,
    ensures
        r@ == file_token_clean(f@),
{
    let ghost target = file_token_clean(f@);
    proof {
        assert(target.len() == f@.len());
    }
    let mut m: Vec<char> = Vec::new();
    let mut i: usize = 0;
    while i < f.len()
        invariant
            i <= f@.len(),
            target == file_token_clean(f@),
            target.len() == f@.len(),
            m@ == target.take(i as int),
        decreases f@.len() - i,
    {
        let c = f[i];
        let u = if c == '_' {
            ' '
        } else {
            c
        };
        let k = if i == 0 {
            to_upper_exec(u)
        } else {
            u
        };
        proof {
            assert(target[i as int] == k);
        }
        m.push(k);
        i = i + 1;
        proof {
            assert(m@ =~= target.take(i as int));
        }
    }
    proof {
        assert(m@ =~= target);
    }
    m
}

/// Parse one candidate record line into its (file reference, utterance)
/// pairs: one pair for a standard line or a single tabular line, two for a
/// tabular line with alternates. `None` exactly when the line does not fit
/// the grammar of its dialect.
pub fn parse_response_line(input: &str) -> (r: Option<Vec<(String, String)>>)
    ensures
        match r {
            Some(rs) => line_records(input@) == Some(pair_views(rs@)),
            None => line_records(input@) is None,
        },
{
    let v = chars_of(input);
    let bar: Vec<char> = vec!['|'];
    let lt: Vec<char> = vec!['<'];
    proof {
        assert(bar@ =~= seq!['|']);
        assert(lt@ =~= seq!['<']);
    }
    if v.len() > 0 && v[0] == '*' {
        // standard dialect
        let b = match find_pat(&v, 0, &lt) {
            Some(b) => b,
            None => {
                return None;
            },
        };
        proof {
            lemma_find_at(v@, 0, seq!['<']);
        }
        let (p, file_raw) = match complete_tag_exec(&v, b) {
            Some(x) => x,
            None => {
                return None;
            },
        };
        if file_raw.len() == 0 {
            return None;
        }
        let p2 = skip_spaces_exec(&v, p);
        let utt = match utterance_exec(&v, p2) {
            Some(u) => u,
            None => {
                return None;
            },
        };
        let file = file_token_clean_exec(&file_raw);
        let rs: Vec<(String, String)> = vec![(string_from_chars(&file), string_from_chars(&utt))];
        proof {
            assert(pair_views(rs@) =~= seq![(file_token_clean(file_raw@), utt@)]);
        }
        Some(rs)
    } else {
        // tabular dialect
        if v.len() == 0 || v[0] != '|' {
            return None;
        }
        let b = match find_pat(&v, 1, &bar) {
            Some(b) => b,
            None => {
                return None;
            },
        };
        proof {
            lemma_find_at(v@, 1, seq!['|']);
        }
        let p = skip_spaces_exec(&v, b + 1);
        let brv: Vec<char> = vec!['<', 'b', 'r', '>'];
        proof {
            assert(brv@ =~= br_tag());
        }
        let bar2 = find_pat(&v, p, &bar);
        let br = find_pat(&v, p, &brv);
        let has_alt = match (br, bar2) {
            (Some(x), Some(y)) => x < y,
            _ => false,
        };
        if has_alt {
            // two alternates
            let h = match find_pat(&v, p, &lt) {
                Some(h) => h,
                None => {
                    return None;
                },
            };
            proof {
                lemma_find_at(v@, p as int, seq!['<']);
            }
            let resp1 = crate::strutil::copy_range(&v, p, h);
            let a = match angle_tag_end_exec(&v, h) {
                Some(a) => a,
                None => {
                    return None;
                },
            };
            let a2 = skip_spaces_exec(&v, a);
            let q = match find_pat(&v, a2, &bar) {
                Some(q) => q,
                None => {
                    return None;
                },
            };
            proof {
                lemma_find_at(v@, a2 as int, seq!['|']);
            }
            let resp2 = crate::strutil::copy_range(&v, a2, q);
            let r = skip_spaces_exec(&v, q + 1);
            let (r2, f1) = match complete_tag_exec(&v, r) {
                Some(x) => x,
                None => {
                    return None;
                },
            };
            let r3 = match angle_tag_end_exec(&v, r2) {
                Some(x) => x,
                None => {
                    return None;
                },
            };
            let (_r4, f2) = match complete_tag_exec(&v, r3) {
                Some(x) => x,
                None => {
                    return None;
                },
            };
            let rs: Vec<(String, String)> = vec![
                (string_from_chars(&f1), string_from_chars(&resp1)),
                (string_from_chars(&f2), string_from_chars(&resp2)),
            ];
            proof {
                assert(pair_views(rs@) =~= seq![(f1@, resp1@), (f2@, resp2@)]);
            }
            Some(rs)
        } else {
            // one record
            let q = match bar2 {
                Some(q) => q,
                None => {
                    return None;
                },
            };
            proof {
                lemma_find_at(v@, p as int, seq!['|']);
            }
            let resp = crate::strutil::copy_range(&v, p, q);
            let r = skip_spaces_exec(&v, q + 1);
            let (_r2, file) = match complete_tag_exec(&v, r) {
                Some(x) => x,
                None => {
                    return None;
                },
            };
            let rs: Vec<(String, String)> = vec![
                (string_from_chars(&file), string_from_chars(&resp)),
            ];
            proof {
                assert(pair_views(rs@) =~= seq![(file@, resp@)]);
            }
            Some(rs)
        }
    }
}

/// Length of the line separator starting at `i`: a line-terminator character
/// counts one, the two-character escape written as a backslash and a letter
/// counts two, anything else is no separator.
pub open spec fn sep_len_at(s: Seq<char>, i: int) -> int
    recommends
        0 <= i < s.len(),
{
    if s[i] == '\n' || s[i] == '\r' {
        1
    } else if s[i] == '\\' && i + 1 < s.len() && (s[i + 1] == 'n' || s[i + 1] == 'r') {
        2
    } else {
        0
    }
}

/// Index of the first line separator at or after `i` (`s.len()` if none).
pub open spec fn first_sep(s: Seq<char>, i: int) -> int
    decreases s.len() - i,
{
    if i < 0 || i >= s.len() {
        i
    } else if sep_len_at(s, i) > 0 {
        i
    } else {
        first_sep(s, i + 1)
    }
}

/// The first separator lies in bounds, and a separator fits in the string.
pub proof fn lemma_first_sep(s: Seq<char>, i: int)
    requires
        0 <= i <= s.len(),
    ensures
        i <= first_sep(s, i) <= s.len(),
        first_sep(s, i) < s.len() ==> 1 <= sep_len_at(s, first_sep(s, i)) && first_sep(s, i)
            + sep_len_at(s, first_sep(s, i)) <= s.len(),
    decreases s.len() - i,
{
    if i < s.len() && sep_len_at(s, i) == 0 {
        lemma_first_sep(s, i + 1);
    }
}

/// The candidate lines of the page tail starting at `p`: the text split at
/// every line terminator or two-character terminator escape.
pub open spec fn split_lines_from(s: Seq<char>, p: int) -> Seq<Seq<char>>
    decreases s.len() - p,
    when 0 <= p <= s.len()
{
    let i = first_sep(s, p);
    proof {
        lemma_first_sep(s, p);
    }
    if i >= s.len() {
        seq![s.subrange(p, s.len() as int)]
    } else {
        seq![s.subrange(p, i)] + split_lines_from(s, i + sep_len_at(s, i))
    }
}

/// Whether `s` starts with `p`.
pub open spec fn has_prefix(s: Seq<char>, p: Seq<char>) -> bool {
    p.len() <= s.len() && s.take(p.len() as int) == p
}

/// The prefix that qualifies a line for the standard dialect.
pub open spec fn std_prefix() -> Seq<char> {
    seq!['*', ' ', '<', 's', 'm', '2', '>']
}

/// The prefix that qualifies a line for the tabular dialect, wrapped over two
/// physical lines.
pub open spec fn merge_prefix() -> Seq<char> {
    seq!['|', ' ', 'a', 'l', 'i', 'g', 'n', '=', '"', 'l', 'e', 'f', 't', '"', ' ', '|', ' ', '"']
}

/// All records of the candidate lines from index `i` on. A line with the
/// standard prefix is parsed alone; a line with the tabular wrap prefix is
/// merged with the following line (which is consumed) and parsed; every other
/// line is ignored. A line whose parse fails contributes nothing; a wrapped
/// line without a continuation line contributes nothing.
pub open spec fn records_from_lines(lines: Seq<Seq<char>>, i: int) -> Seq<(Seq<char>, Seq<char>)>
    decreases lines.len() - i,
    when 0 <= i
{
    if i >= lines.len() {
        Seq::empty()
    } else {
        let line = lines[i];
        if has_prefix(line, std_prefix()) {
            match line_records(line) {
                None => records_from_lines(lines, i + 1),
                Some(rs) => rs + records_from_lines(lines, i + 1),
            }
        } else if has_prefix(line, merge_prefix()) {
            if i + 1 < lines.len() {
                match line_records(line + lines[i + 1]) {
                    None => records_from_lines(lines, i + 2),
                    Some(rs) => rs + records_from_lines(lines, i + 2),
                }
            } else {
                Seq::empty()
            }
        } else {
            records_from_lines(lines, i + 1)
        }
    }
}

/// All records of one raw page.
pub open spec fn page_records(s: Seq<char>) -> Seq<(Seq<char>, Seq<char>)> {
    records_from_lines(split_lines_from(s, 0), 0)
}

/// The views of a sequence of lines.
pub open spec fn line_views(lines: Seq<Vec<char>>) -> Seq<Seq<char>> {
    lines.map_values(|l: Vec<char>| l@)
}

/// The views of parsed records.
pub open spec fn response_views(rs: Seq<Response>) -> Seq<(Seq<char>, Seq<char>)> {
    rs.map_values(|r: Response| (r.file@, r.response@))
}

fn first_sep_exec(v: &Vec<char>, from: usize) -> (r: (usize, usize))
    requires
        from <= v@.len(),
    ensures
        r.0 as int == first_sep(v@, from as int),
        from <= r.0 <= v@.len(),
        r.0 < v@.len() ==> r.1 as int == sep_len_at(v@, r.0 as int) && 1 <= r.1 && r.0 + r.1
            <= v@.len(),
{
    let n = v.len();
    let mut i: usize = from;
    while i < n
        invariant
            from <= i <= n,
            n == v@.len(),
            first_sep(v@, from as int) == first_sep(v@, i as int),
        decreases n - i,
    {
        let c = v[i];
        if c == '\n' || c == '\r' {
            return (i, 1);
        }
        if c == '\\' && i + 1 < n && (v[i + 1] == 'n' || v[i + 1] == 'r') {
            return (i, 2);
        }
        i = i + 1;
    }
    (i, 0)
}

/// Split a raw page into its candidate lines.
fn split_lines_exec(v: &Vec<char>) -> (lines: Vec<Vec<char>>)
    ensures
        line_views(lines@) == split_lines_from(v@, 0),
{
    let ghost s = v@;
    let mut lines: Vec<Vec<char>> = Vec::new();
    let mut p: usize = 0;
    let mut done = false;
    while !done
        invariant
            s == v@,
            p <= v@.len(),
            done ==> line_views(lines@) == split_lines_from(s, 0),
            !done ==> split_lines_from(s, 0) == line_views(lines@) + split_lines_from(
                s,
                p as int,
            ),
        decreases v@.len() - p + (if done { 0int } else { 1int }),
    {
        let ghost old_lines = lines@;
        let (i, l) = first_sep_exec(v, p);
        let line = crate::strutil::copy_range(v, p, i);
        let ghost lv = line@;
        lines.push(line);
        proof {
            assert(line_views(lines@) =~= line_views(old_lines).push(lv));
        }
        if i >= v.len() {
            done = true;
            proof {
                assert(split_lines_from(s, p as int) =~= seq![lv]);
                assert(line_views(old_lines) + seq![lv] =~= line_views(lines@));
                assert(line_views(lines@) =~= split_lines_from(s, 0));
            }
        } else {
            let newp = i + l;
            proof {
                assert(split_lines_from(s, p as int) =~= seq![lv] + split_lines_from(
                    s,
                    newp as int,
                ));
                assert(line_views(old_lines) + (seq![lv] + split_lines_from(s, newp as int))
                    =~= line_views(lines@) + split_lines_from(s, newp as int));
            }
            p = newp;
        }
    }
    lines
}

fn has_prefix_exec(v: &Vec<char>, pat: &Vec<char>) -> (r: bool)
    ensures
        r == has_prefix(v@, pat@),
{
    if pat.len() <= v.len() {
        let r = crate::strutil::matches_at(v, 0, pat);
        proof {
            assert(v@.take(pat@.len() as int) == v@.subrange(0, pat@.len() as int));
        }
        r
    } else {
        false
    }
}

/// Parse a whole raw page into its records. Logical lines may be separated by
/// real line terminators or by their two-character escapes; qualifying lines
/// are parsed by `parse_response_line`, wrapped tabular lines are first merged
/// with their continuation line, all other lines are ignored, and lines that
/// fail to parse are skipped.
pub fn parse_all_response_lines(input: &str) -> (r: Vec<Response>)
    ensures
        response_views(r@) == page_records(input@),
{
    let v = chars_of(input);
    let lines = split_lines_exec(&v);
    let ghost linesv = line_views(lines@);
    let std_pat: Vec<char> = vec!['*', ' ', '<', 's', 'm', '2', '>'];
    let merge_pat: Vec<char> = vec![
        '|', ' ', 'a', 'l', 'i', 'g', 'n', '=', '"', 'l', 'e', 'f', 't', '"', ' ', '|', ' ', '"',
    ];
    proof {
        assert(std_pat@ =~= std_prefix());
        assert(merge_pat@ =~= merge_prefix());
    }
    let mut out: Vec<Response> = Vec::new();
    let mut i: usize = 0;
    proof {
        assert(response_views(out@) + records_from_lines(linesv, 0) =~= records_from_lines(
            linesv,
            0,
        ));
    }
    while i < lines.len()
        invariant
            i <= lines@.len(),
            linesv == line_views(lines@),
            std_pat@ == std_prefix(),
            merge_pat@ == merge_prefix(),
            records_from_lines(linesv, 0) == response_views(out@) + records_from_lines(
                linesv,
                i as int,
            ),
        decreases lines@.len() - i,
    {
        let ghost old_i = i as int;
        let line = &lines[i];
        proof {
            assert(linesv[old_i] == line@);
        }
        if has_prefix_exec(line, &std_pat) {
            let text = string_from_chars(line);
            if let Some(rs) = parse_response_line(text.as_str()) {
                push_records(&mut out, &rs);
                proof {
                    assert(line_records(linesv[old_i]) == Some(pair_views(rs@)));
                }
            }
            i = i + 1;
        } else if has_prefix_exec(line, &merge_pat) {
            if i + 1 < lines.len() {
                let mut merged = crate::strutil::copy_range(line, 0, line.len());
                let next = &lines[i + 1];
                crate::strutil::append_range(&mut merged, next, 0, next.len());
                proof {
                    assert(merged@ =~= linesv[old_i] + linesv[old_i + 1]);
                }
                let text = string_from_chars(&merged);
                if let Some(rs) = parse_response_line(text.as_str()) {
                    push_records(&mut out, &rs);
                    proof {
                        assert(line_records(linesv[old_i] + linesv[old_i + 1]) == Some(
                            pair_views(rs@),
                        ));
                    }
                }
                i = i + 2;
            } else {
                i = i + 1;
                proof {
                    assert(records_from_lines(linesv, old_i) =~= Seq::<(
                        Seq<char>,
                        Seq<char>,
                    )>::empty());
                    assert(records_from_lines(linesv, old_i + 1) =~= Seq::<(
                        Seq<char>,
                        Seq<char>,
                    )>::empty());
                }
            }
        } else {
            i = i + 1;
        }
        proof {
            assert(records_from_lines(linesv, 0) =~= response_views(out@) + records_from_lines(
                linesv,
                i as int,
            ));
        }
    }
    proof {
        assert(records_from_lines(linesv, lines@.len() as int) =~= Seq::<(
            Seq<char>,
            Seq<char>,
        )>::empty());
        assert(response_views(out@) =~= page_records(input@));
    }
    out
}

/// Append the parsed pairs of one line to the page's records.
fn push_records(out: &mut Vec<Response>, rs: &Vec<(String, String)>)
    ensures
        response_views(final(out)@) == response_views(old(out)@) + pair_views(rs@),
{
    let mut k: usize = 0;
    while k < rs.len()
        invariant
            k <= rs@.len(),
            response_views(out@) == response_views(old(out)@) + pair_views(rs@.take(k as int)),
        decreases rs@.len() - k,
    {
        let ghost prev_out = out@;
        let file = rs[k].0.clone();
        let response = rs[k].1.clone();
        let ghost fv = file@;
        let ghost pv = response@;
        out.push(Response { file, response });
        k = k + 1;
        proof {
            assert(response_views(out@) =~= response_views(prev_out).push((fv, pv)));
            assert(pair_views(rs@.take(k as int)) =~= pair_views(rs@.take(k - 1)).push(
                (rs@[k - 1].0@, rs@[k - 1].1@),
            ));
            assert(response_views(out@) =~= response_views(old(out)@) + pair_views(
                rs@.take(k as int),
            ));
        }
    }
    proof {
        assert(rs@.take(rs@.len() as int) =~= rs@);
        assert(response_views(out@) =~= response_views(old(out)@) + pair_views(rs@));
    }
}

/// Parse the remainder of a record as utterance text: markup tags are
/// stripped or kept by the rules of `utterance_from`, and the assembled text
/// is returned. `None` exactly when the text does not fit the grammar.
pub fn parse_response(input: &str) -> (r: Option<String>)
    ensures
        match r {
            Some(u) => utterance(input@) == Some(u@),
            None => utterance(input@) is None,
        },
{
    let v = chars_of(input);
    let p = skip_spaces_exec(&v, 0);
    match utterance_exec(&v, p) {
        Some(u) => Some(string_from_chars(&u)),
        None => None,
    }
}

} // verus!
