//! The semantic content of the text protocol: parsing the initialization
//! and per-turn messages from their byte lines, and encoding the readiness
//! and move messages. Reading and writing the process streams is the
//! caller's concern; every function here is a pure function on bytes.

use vstd::prelude::*;
use crate::world::{Environment, Occupation};

verus! {

/// A protocol failure: the message did not have the expected shape.
pub enum Error {
    ParseError(String),
}

/// ASCII whitespace, as trimmed from the end of a protocol line.
pub open spec fn is_ws(b: u8) -> bool {
    b == 32 || b == 9 || b == 10 || b == 13
}

/// A decimal digit.
pub open spec fn is_digit(b: u8) -> bool {
    48 <= b <= 57
}

/// The line without its trailing whitespace.
pub open spec fn trim_right_spec(s: Seq<u8>) -> Seq<u8>
    decreases s.len(),
{
    if s.len() > 0 && is_ws(s.last()) {
        trim_right_spec(s.drop_last())
    } else {
        s
    }
}

/// The index of the first space at or after `i`, or the length.
pub open spec fn first_space_from(s: Seq<u8>, i: int) -> int
    decreases s.len() - i,
{
    if i < 0 || i >= s.len() {
        s.len() as int
    } else if s[i] == 32 {
        i
    } else {
        first_space_from(s, i + 1)
    }
}

/// The tokens of `s` from position `start` on, separated by single spaces;
/// empty tokens are kept, as the engine's format demands.
pub open spec fn split_from(s: Seq<u8>, start: int) -> Seq<Seq<u8>>
    decreases s.len() - start,
{
    if start < 0 || start > s.len() {
        Seq::empty()
    } else {
        let j = first_space_from(s, start);
        if j >= s.len() {
            seq![s.subrange(start, s.len() as int)]
        } else if j < start {
            // The first space never lies before the start; this arm only
            // bounds the recursion.
            Seq::empty()
        } else {
            seq![s.subrange(start, j)] + split_from(s, j + 1)
        }
    }
}

/// All bytes of `t` are digits.
pub open spec fn all_digits(t: Seq<u8>) -> bool {
    forall|j: int| 0 <= j < t.len() ==> is_digit(#[trigger] t[j])
}

/// The value of a digit string.
pub open spec fn uint_val(t: Seq<u8>) -> int
    decreases t.len(),
{
    if t.len() == 0 {
        0
    } else {
        uint_val(t.drop_last()) * 10 + (t.last() - 48)
    }
}

/// The unsigned decimal value of a token, when it is one and at most `max`.
pub open spec fn parse_u64_spec(t: Seq<u8>, max: int) -> Option<int> {
    if t.len() > 0 && all_digits(t) && uint_val(t) <= max {
        Some(uint_val(t))
    } else {
        None
    }
}

/// The signed decimal value of a token: an optional minus sign before a
/// digit string, within the `i16` range.
pub open spec fn parse_i16_spec(t: Seq<u8>) -> Option<int> {
    if t.len() > 0 && t[0] == 45 {
        match parse_u64_spec(t.subrange(1, t.len() as int), 0x8000) {
            Some(v) => Some(-v),
            None => None,
        }
    } else {
        parse_u64_spec(t, 0x7fff)
    }
}

/// A prefix of a digit string is worth no more than the whole.
proof fn lemma_uint_prefix(t: Seq<u8>, i: int)
    requires
        0 <= i <= t.len(),
        all_digits(t),
    ensures
        uint_val(t.subrange(0, i)) <= uint_val(t),
        uint_val(t) >= 0,
    decreases t.len() - i,
{
    if i == t.len() {
        assert(t.subrange(0, i) =~= t);
        lemma_uint_nonneg(t);
    } else {
        lemma_uint_prefix(t, i + 1);
        let a = t.subrange(0, i);
        let b = t.subrange(0, i + 1);
        assert(b.drop_last() =~= a);
        lemma_uint_nonneg(a);
    }
}

/// A digit string is worth at least zero.
proof fn lemma_uint_nonneg(t: Seq<u8>)
    requires
        all_digits(t),
    ensures
        uint_val(t) >= 0,
    decreases t.len(),
{
    if t.len() > 0 {
        assert(all_digits(t.drop_last())) by {
            assert(forall|j: int|
                0 <= j < t.len() - 1 ==> is_digit(#[trigger] t.drop_last()[j]));
        }
        lemma_uint_nonneg(t.drop_last());
    }
}

/// The line without its trailing whitespace.
pub fn trim_right(line: &Vec<u8>) -> (r: Vec<u8>)
    ensures
        r@ == trim_right_spec(line@),
{
    let mut end = line.len();
    proof {
        assert(line@.subrange(0, line@.len() as int) =~= line@);
    }
    loop
        invariant_except_break
            end <= line.len(),
            trim_right_spec(line@) == trim_right_spec(line@.subrange(0, end as int)),
        ensures
            end <= line.len(),
            trim_right_spec(line@) == trim_right_spec(line@.subrange(0, end as int)),
            end == 0 || !is_ws(line@[end - 1]),
        decreases end,
    {
        if end == 0 {
            break ;
        }
        let b = line[end - 1];
        if !(b == 32 || b == 9 || b == 10 || b == 13) {
            break ;
        }
        proof {
            assert(line@.subrange(0, end as int).drop_last() =~= line@.subrange(
                0,
                end - 1,
            ));
        }
        end = end - 1;
    }
    let mut r: Vec<u8> = Vec::new();
    let mut i: usize = 0;
    while i < end
        invariant
            i <= end <= line.len(),
            r@ == line@.subrange(0, i as int),
        decreases end - i,
    {
        r.push(line[i]);
        proof {
            assert(r@ =~= line@.subrange(0, i + 1 as int));
        }
        i = i + 1;
    }
    proof {
        assert(line@.subrange(0, end as int).len() == 0 || !is_ws(
            line@.subrange(0, end as int).last(),
        ));
        assert(r@ == line@.subrange(0, end as int));
    }
    r
}

/// The tokens of `s`, separated by single spaces; empty tokens are kept.
pub fn split_tokens(s: &Vec<u8>) -> (r: Vec<Vec<u8>>)
    ensures
        r@.len() == split_from(s@, 0).len(),
        forall|k: int| 0 <= k < r@.len() ==> (#[trigger] r@[k])@ == split_from(s@, 0)[k],
{
    let mut out: Vec<Vec<u8>> = Vec::new();
    let mut start: usize = 0;
    loop
        invariant_except_break
            start <= s.len(),
            split_from(s@, 0).len() == out@.len() + split_from(s@, start as int).len(),
            forall|k: int|
                0 <= k < out@.len() ==> (#[trigger] out@[k])@ == split_from(s@, 0)[k],
            forall|k: int|
                0 <= k < split_from(s@, start as int).len() ==> split_from(s@, start as int)[k]
                    == split_from(s@, 0)[out@.len() + k],
        ensures
            out@.len() == split_from(s@, 0).len(),
            forall|k: int| 0 <= k < out@.len() ==> (#[trigger] out@[k])@ == split_from(s@, 0)[k],
        decreases s.len() - start + 1,
    {
        // Find the next space.
        let mut j = start;
        while j < s.len() && s[j] != 32
            invariant
                start <= j <= s.len(),
                first_space_from(s@, start as int) == first_space_from(s@, j as int),
            decreases s.len() - j,
        {
            j = j + 1;
        }
        proof {
            assert(first_space_from(s@, start as int) == j);
        }
        let mut tok: Vec<u8> = Vec::new();
        let mut i = start;
        while i < j
            invariant
                start <= i <= j <= s.len(),
                tok@ == s@.subrange(start as int, i as int),
            decreases j - i,
        {
            tok.push(s[i]);
            proof {
                assert(tok@ =~= s@.subrange(start as int, i + 1 as int));
            }
            i = i + 1;
        }
        let ghost sf = split_from(s@, start as int);
        let ghost out_pre = out@;
        proof {
            if j >= s.len() {
                assert(sf == seq![s@.subrange(start as int, s@.len() as int)]);
                assert(tok@ == sf[0]);
            } else {
                assert(sf == seq![s@.subrange(start as int, j as int)] + split_from(
                    s@,
                    j + 1,
                ));
                assert(tok@ == sf[0]);
            }
        }
        out.push(tok);
        proof {
            assert(out@[out_pre.len() as int]@ == split_from(s@, 0)[out_pre.len() as int]) by {
                assert(sf[0] == split_from(s@, 0)[out_pre.len() as int]);
            }
            assert forall|k: int|
                0 <= k < out@.len() implies (#[trigger] out@[k])@ == split_from(s@, 0)[k] by {
                if k < out_pre.len() {
                    assert(out@[k] == out_pre[k]);
                }
            }
        }
        if j >= s.len() {
            proof {
                assert(sf.len() == 1);
            }
            break ;
        }
        proof {
            assert forall|k: int|
                0 <= k < split_from(s@, j + 1).len() implies #[trigger] split_from(s@, j + 1)[k]
                == split_from(s@, 0)[out@.len() + k] by {
                assert(sf[k + 1] == split_from(s@, j + 1)[k]);
                assert(sf[k + 1] == split_from(s@, 0)[out_pre.len() + k + 1]);
            }
        }
        start = j + 1;
    }
    out
}

/// The unsigned decimal value of a token, when it is one and at most `max`.
pub fn parse_u64(t: &Vec<u8>, max: u64) -> (r: Option<u64>)
    requires
        max <= 0xffff_ffff,
    ensures
        match r {
            Some(v) => parse_u64_spec(t@, max as int) == Some(v as int),
            None => parse_u64_spec(t@, max as int) is None,
        },
{
    if t.len() == 0 {
        return None;
    }
    let mut val: u64 = 0;
    let mut i: usize = 0;
    while i < t.len()
        invariant
            i <= t.len(),
            max <= 0xffff_ffff,
            val <= max,
            all_digits(t@.subrange(0, i as int)),
            val == uint_val(t@.subrange(0, i as int)),
        decreases t.len() - i,
    {
        let b = t[i];
        if b < 48 || b > 57 {
            return None;
        }
        let d = (b - 48) as u64;
        let next = val * 10 + d;
        proof {
            assert(t@.subrange(0, i + 1 as int).drop_last() =~= t@.subrange(0, i as int));
            assert(all_digits(t@.subrange(0, i + 1 as int))) by {
                assert(forall|k: int|
                    0 <= k < i + 1 ==> is_digit(#[trigger] t@.subrange(0, i + 1 as int)[k]));
            }
        }
        if next > max {
            proof {
                if all_digits(t@) && uint_val(t@) <= max as int {
                    lemma_uint_prefix(t@, i + 1);
                }
            }
            return None;
        }
        val = next;
        i = i + 1;
    }
    proof {
        assert(t@.subrange(0, t@.len() as int) =~= t@);
    }
    Some(val)
}

/// The signed decimal value of a token, within the `i16` range.
pub fn parse_i16(t: &Vec<u8>) -> (r: Option<i16>)
    ensures
        match r {
            Some(v) => parse_i16_spec(t@) == Some(v as int),
            None => parse_i16_spec(t@) is None,
        },
{
    if t.len() > 0 && t[0] == 45 {
        let mut rest: Vec<u8> = Vec::new();
        let mut i: usize = 1;
        while i < t.len()
            invariant
                1 <= i <= t.len(),
                t.len() > 0,
                rest@ == t@.subrange(1, i as int),
            decreases t.len() - i,
        {
            rest.push(t[i]);
            proof {
                assert(rest@ =~= t@.subrange(1, i + 1 as int));
            }
            i = i + 1;
        }
        proof {
            assert(rest@ == t@.subrange(1, t@.len() as int));
        }
        match parse_u64(&rest, 0x8000) {
            Some(v) => Some(-(v as i32) as i16),
            None => None,
        }
    } else {
        match parse_u64(t, 0x7fff) {
            Some(v) => Some(v as i16),
            None => None,
        }
    }
}

/// The tokens of a protocol line: the line without trailing whitespace,
/// split on single spaces.
pub open spec fn tokens_of(line: Seq<u8>) -> Seq<Seq<u8>> {
    split_from(trim_right_spec(line), 0)
}

/// The dimensions encoded by the second initialization line: exactly two
/// tokens, both positive, with a cell count the grid type can hold.
pub open spec fn dims_spec(l2: Seq<u8>) -> Option<(int, int)> {
    let toks = tokens_of(l2);
    if toks.len() == 2 {
        match (parse_i16_spec(toks[0]), parse_i16_spec(toks[1])) {
            (Some(w), Some(h)) => if 0 < w && 0 < h && w * h <= 0xffff {
                Some((w, h))
            } else {
                None
            },
            _ => None,
        }
    } else {
        None
    }
}

/// The third initialization line holds one production value per cell.
pub open spec fn productions_ok(l3: Seq<u8>, n: int) -> bool {
    let toks = tokens_of(l3);
    toks.len() == n && forall|i: int| 0 <= i < n ==> parse_i16_spec(#[trigger] toks[i]) is Some
}

/// The three initialization lines describe a well-formed environment.
pub open spec fn env_parseable(l1: Seq<u8>, l2: Seq<u8>, l3: Seq<u8>) -> bool {
    &&& parse_u64_spec(trim_right_spec(l1), 255) is Some
    &&& match dims_spec(l2) {
        Some(d) => productions_ok(l3, d.0 * d.1),
        None => false,
    }
}

/// Parses the three initialization lines: the player tag, the grid
/// dimensions, and the per-cell production values. Succeeds exactly when
/// the lines have the expected shape, and then returns the environment they
/// describe.
pub fn parse_environment_lines(l1: &Vec<u8>, l2: &Vec<u8>, l3: &Vec<u8>) -> (r: Result<
    Environment,
    Error,
>)
    ensures
        r is Ok <==> env_parseable(l1@, l2@, l3@),
        r matches Ok(env) ==> {
            &&& env.wf()
            &&& parse_u64_spec(trim_right_spec(l1@), 255) == Some(env.my_tag as int)
            &&& dims_spec(l2@) == Some((env.space.w as int, env.space.h as int))
            &&& env.production_map.len() == env.space.sz
            &&& forall|i: int|
                0 <= i < env.production_map.len() ==> parse_i16_spec(
                    tokens_of(l3@)[i],
                ) == Some(#[trigger] env.production_map[i] as int)
        },
{
    let t1 = trim_right(l1);
    let tag = match parse_u64(&t1, 255) {
        Some(v) => v as u8,
        None => {
            return Err(Error::ParseError(String::new()));
        },
    };
    let t2 = trim_right(l2);
    let toks2 = split_tokens(&t2);
    if toks2.len() != 2 {
        return Err(Error::ParseError(String::new()));
    }
    let w = match parse_i16(&toks2[0]) {
        Some(v) => v,
        None => {
            return Err(Error::ParseError(String::new()));
        },
    };
    let h = match parse_i16(&toks2[1]) {
        Some(v) => v,
        None => {
            return Err(Error::ParseError(String::new()));
        },
    };
    proof {
        assert(-0x40000000 <= (w as int) * (h as int) <= 0x40000000) by (nonlinear_arith)
            requires
                -0x8000 <= w <= 0x7fff,
                -0x8000 <= h <= 0x7fff,
        ;
    }
    if !(0 < w && 0 < h && (w as i64) * (h as i64) <= 0xffff) {
        return Err(Error::ParseError(String::new()));
    }
    let mut environment = Environment::create(tag, w, h);
    let n = environment.space.len();
    let t3 = trim_right(l3);
    let toks3 = split_tokens(&t3);
    if toks3.len() != n {
        return Err(Error::ParseError(String::new()));
    }
    let mut i: usize = 0;
    while i < n
        invariant
            n == environment.space.spec_len(),
            environment.space.wf(),
            environment.my_tag == tag,
            dims_spec(l2@) == Some((environment.space.w as int, environment.space.h as int)),
            toks3.len() == n,
            forall|k: int| 0 <= k < n ==> (#[trigger] toks3@[k])@ == tokens_of(l3@)[k],
            tokens_of(l3@).len() == n,
            i <= n,
            environment.production_map.len() == i,
            forall|k: int|
                0 <= k < i ==> parse_i16_spec(tokens_of(l3@)[k]) == Some(
                    #[trigger] environment.production_map[k] as int,
                ),
        decreases n - i,
    {
        let v = match parse_i16(&toks3[i]) {
            Some(v) => v,
            None => {
                return Err(Error::ParseError(String::new()));
            },
        };
        environment.production_map.push(v);
        i = i + 1;
    }
    proof {
        assert forall|i2: int|
            0 <= i2 < n implies parse_i16_spec(#[trigger] tokens_of(l3@)[i2]) is Some by {
            assert(parse_i16_spec(tokens_of(l3@)[i2]) == Some(
                environment.production_map[i2] as int,
            ));
        }
    }
    Ok(environment)
}

/// The owner tags of the first `n` cells, decoded from the run-length
/// pairs of the token list starting at token `ti`, together with the index
/// of the first token after them. Zero-length runs are read past; a run
/// crossing the end of the grid is an error.
pub open spec fn decode_tags(toks: Seq<Seq<u8>>, ti: int, n: int) -> Option<(Seq<u8>, int)>
    decreases n, toks.len() - ti,
{
    if n <= 0 {
        Some((Seq::empty(), ti))
    } else if ti < 0 || ti + 2 > toks.len() {
        None
    } else {
        match (parse_u64_spec(toks[ti], 0xffff), parse_u64_spec(toks[ti + 1], 255)) {
            (Some(cnt), Some(tag)) => if cnt <= 0 {
                decode_tags(toks, ti + 2, n)
            } else if cnt > n {
                None
            } else {
                match decode_tags(toks, ti + 2, n - cnt) {
                    Some((rest, tf)) => Some(
                        (Seq::new(cnt as nat, |q: int| tag as u8) + rest, tf),
                    ),
                    None => None,
                }
            },
            _ => None,
        }
    }
}

/// The occupations encoded by a turn line for a grid of `n` cells: the
/// run-length-encoded owner tags, then one strength per cell, and nothing
/// else.
pub open spec fn state_parse_spec(line: Seq<u8>, n: int) -> Option<Seq<Occupation>> {
    let toks = tokens_of(line);
    match decode_tags(toks, 0, n) {
        Some((tags, tf)) => {
            if toks.len() == tf + n && (forall|i: int|
                0 <= i < n ==> match parse_i16_spec(#[trigger] toks[tf + i]) {
                    Some(v) => 0 <= v <= 255,
                    None => false,
                }) {
                Some(
                    Seq::new(
                        n as nat,
                        |i: int| Occupation {
                            tag: tags[i],
                            strength: match parse_i16_spec(toks[tf + i]) {
                                Some(v) => v as i16,
                                None => 0i16,
                            },
                        },
                    ),
                )
            } else {
                None
            }
        },
        None => None,
    }
}

/// Parses a turn line for a grid of `n` cells. Succeeds exactly when the
/// line decodes, and then returns the occupation of every cell.
pub fn parse_state_line(line: &Vec<u8>, n: usize) -> (r: Result<Vec<Occupation>, Error>)
    ensures
        match r {
            Ok(occ) => state_parse_spec(line@, n as int) == Some(occ@) && occ.len() == n,
            Err(_) => state_parse_spec(line@, n as int) is None,
        },
{
    let t = trim_right(line);
    let toks = split_tokens(&t);
    let ghost stoks = tokens_of(line@);
    proof {
        assert(stoks.len() == toks.len());
    }
    let mut tags: Vec<u8> = Vec::new();
    let mut ti: usize = 0;
    proof {
        if decode_tags(stoks, 0, n as int) is Some {
            let d0 = decode_tags(stoks, 0, n as int).unwrap();
            assert(Seq::<u8>::empty() + d0.0 =~= d0.0);
        }
    }
    while tags.len() < n
        invariant
            stoks == tokens_of(line@),
            toks.len() == stoks.len(),
            forall|k: int| 0 <= k < toks.len() ==> (#[trigger] toks@[k])@ == stoks[k],
            ti <= toks.len(),
            tags.len() <= n,
            match decode_tags(stoks, ti as int, n - tags.len()) {
                Some((rest, tf)) => decode_tags(stoks, 0, n as int) == Some(
                    (tags@ + rest, tf),
                ),
                None => decode_tags(stoks, 0, n as int) is None,
            },
        decreases n - tags.len(), toks.len() - ti,
    {
        if toks.len() < 2 || ti > toks.len() - 2 {
            return Err(Error::ParseError(String::new()));
        }
        let cnt = match parse_u64(&toks[ti], 0xffff) {
            Some(v) => v,
            None => {
                return Err(Error::ParseError(String::new()));
            },
        };
        proof {
            assert(parse_u64_spec(stoks[ti as int], 0xffff) == Some(cnt as int));
            assert(cnt <= 0xffff);
        }
        let tag = match parse_u64(&toks[ti + 1], 255) {
            Some(v) => v as u8,
            None => {
                return Err(Error::ParseError(String::new()));
            },
        };
        let remaining = n - tags.len();
        if cnt as usize > remaining {
            return Err(Error::ParseError(String::new()));
        }
        let ghost tags_pre = tags@;
        let mut c: usize = 0;
        while c < cnt as usize
            invariant
                cnt <= 0xffff,
                c <= cnt,
                tags@ == tags_pre + Seq::new(c as nat, |q: int| tag),
            decreases cnt - c,
        {
            tags.push(tag);
            proof {
                assert(tags@ =~= tags_pre + Seq::new((c + 1) as nat, |q: int| tag));
            }
            c = c + 1;
        }
        proof {
            if cnt > 0 {
                assert(decode_tags(stoks, ti as int, (n - tags_pre.len()) as int) == (
                match decode_tags(stoks, ti + 2, n - tags_pre.len() - cnt) {
                    Some((rest, tf)) => Some(
                        (Seq::new(cnt as nat, |q: int| tag) + rest, tf),
                    ),
                    None => None::<(Seq<u8>, int)>,
                }));
                if decode_tags(stoks, ti + 2, n - tags_pre.len() - cnt) is Some {
                    let (rest2, tf2) = decode_tags(
                        stoks,
                        ti + 2,
                        n - tags_pre.len() - cnt,
                    ).unwrap();
                    assert(tags_pre + (Seq::new(cnt as nat, |q: int| tag) + rest2) =~= tags@
                        + rest2);
                }
            }
        }
        ti = ti + 2;
    }
    proof {
        assert(decode_tags(stoks, ti as int, 0) == Some((Seq::<u8>::empty(), ti as int)));
        assert(tags@ + Seq::<u8>::empty() =~= tags@);
    }
    // One strength per cell, and nothing after.
    if toks.len() < ti || toks.len() - ti != n {
        return Err(Error::ParseError(String::new()));
    }
    let mut occ: Vec<Occupation> = Vec::new();
    let mut i: usize = 0;
    while i < n
        invariant
            stoks == tokens_of(line@),
            toks.len() == stoks.len(),
            forall|k: int| 0 <= k < toks.len() ==> (#[trigger] toks@[k])@ == stoks[k],
            toks.len() == ti + n,
            i <= n,
            occ.len() == i,
            decode_tags(stoks, 0, n as int) == Some((tags@, ti as int)),
            tags.len() == n,
            forall|k: int|
                0 <= k < i ==> parse_i16_spec(stoks[ti + k]) == Some(
                    (#[trigger] occ@[k]).strength as int,
                ) && 0 <= occ@[k].strength <= 255 && occ@[k].tag == tags@[k],
        decreases n - i,
    {
        let v = match parse_i16(&toks[ti + i]) {
            Some(v) => v,
            None => {
                return Err(Error::ParseError(String::new()));
            },
        };
        if v < 0 || v > 255 {
            return Err(Error::ParseError(String::new()));
        }
        occ.push(Occupation { tag: tags[i], strength: v });
        i = i + 1;
    }
    proof {
        assert forall|i2: int|
            0 <= i2 < n implies (match parse_i16_spec(#[trigger] stoks[ti + i2]) {
            Some(v2) => 0 <= v2 <= 255,
            None => false,
        }) by {
            assert(parse_i16_spec(stoks[ti + i2]) == Some(occ@[i2].strength as int));
        }
        let spec_r = state_parse_spec(line@, n as int);
        assert(spec_r is Some);
        assert forall|i2: int| 0 <= i2 < n implies occ@[i2] == spec_r.unwrap()[i2] by {
            assert(parse_i16_spec(stoks[ti + i2]) == Some(occ@[i2].strength as int));
        }
        assert(occ@ =~= spec_r.unwrap());
    }
    Ok(occ)
}

/// The decimal digits of a non-negative value.
pub open spec fn dec_spec(v: int) -> Seq<u8>
    decreases v,
{
    if v < 0 {
        Seq::empty()
    } else if v < 10 {
        seq![(48 + v) as u8]
    } else {
        dec_spec(v / 10).push((48 + v % 10) as u8)
    }
}

/// Appends the decimal digits of `v`.
pub fn push_dec(out: &mut Vec<u8>, v: u32)
    ensures
        final(out)@ == old(out)@ + dec_spec(v as int),
    decreases v,
{
    if v < 10 {
        out.push(48 + v as u8);
        proof {
            assert(final(out)@ =~= old(out)@ + dec_spec(v as int));
        }
    } else {
        push_dec(out, v / 10);
        out.push(48 + (v % 10) as u8);
        proof {
            assert(final(out)@ =~= old(out)@ + dec_spec(v as int));
        }
    }
}

/// The readiness message: the bot's name with the player tag appended.
pub open spec fn ready_message_spec(name: Seq<u8>, tag: int) -> Seq<u8> {
    name + seq![95u8] + dec_spec(tag) + seq![10u8]
}

/// Encodes the readiness message.
pub fn ready_message(name: &Vec<u8>, tag: u8) -> (r: Vec<u8>)
    ensures
        r@ == ready_message_spec(name@, tag as int),
{
    let mut out: Vec<u8> = Vec::new();
    let mut i: usize = 0;
    while i < name.len()
        invariant
            i <= name.len(),
            out@ == name@.subrange(0, i as int),
        decreases name.len() - i,
    {
        out.push(name[i]);
        proof {
            assert(out@ =~= name@.subrange(0, i + 1 as int));
        }
        i = i + 1;
    }
    proof {
        assert(out@ == name@.subrange(0, name@.len() as int));
        assert(name@.subrange(0, name@.len() as int) =~= name@);
    }
    out.push(95);
    push_dec(&mut out, tag as u32);
    out.push(10);
    proof {
        assert(out@ =~= ready_message_spec(name@, tag as int));
    }
    out
}

/// The protocol code of an action: 0 to stay, 1 to 4 for the cardinal
/// directions.
pub open spec fn action_code(d: Option<crate::dir::Dir>) -> int {
    match d {
        None => 0,
        Some(crate::dir::Dir::North) => 1,
        Some(crate::dir::Dir::East) => 2,
        Some(crate::dir::Dir::South) => 3,
        Some(crate::dir::Dir::West) => 4,
    }
}

/// The move message for the first `k` actions: space-separated
/// `x y code` triples.
pub open spec fn moves_body_spec(moves: Seq<crate::action::Action>, k: int) -> Seq<u8>
    decreases k,
{
    if k <= 0 {
        Seq::empty()
    } else {
        let m = moves[k - 1];
        let triple = dec_spec(m.0.x as int) + seq![32u8] + dec_spec(m.0.y as int) + seq![32u8]
            + dec_spec(action_code(m.1));
        if k == 1 {
            triple
        } else {
            moves_body_spec(moves, k - 1) + seq![32u8] + triple
        }
    }
}

/// Encodes the per-turn move message: the actions as `x y code` triples,
/// separated by spaces and ended by a newline.
pub fn moves_message(moves: &Vec<crate::action::Action>) -> (r: Vec<u8>)
    requires
        forall|i: int|
            0 <= i < moves.len() ==> (#[trigger] moves[i]).0.x >= 0 && moves[i].0.y >= 0,
    ensures
        r@ == moves_body_spec(moves@, moves@.len() as int) + seq![10u8],
{
    let mut out: Vec<u8> = Vec::new();
    let mut i: usize = 0;
    while i < moves.len()
        invariant
            forall|k: int|
                0 <= k < moves.len() ==> (#[trigger] moves[k]).0.x >= 0 && moves[k].0.y >= 0,
            i <= moves.len(),
            out@ == moves_body_spec(moves@, i as int),
        decreases moves.len() - i,
    {
        if i > 0 {
            out.push(32);
        }
        let m = moves[i];
        push_dec(&mut out, m.0.x as u32);
        out.push(32);
        push_dec(&mut out, m.0.y as u32);
        out.push(32);
        let code: u32 = match m.1 {
            None => 0,
            Some(crate::dir::Dir::North) => 1,
            Some(crate::dir::Dir::East) => 2,
            Some(crate::dir::Dir::South) => 3,
            Some(crate::dir::Dir::West) => 4,
        };
        push_dec(&mut out, code);
        proof {
            assert(out@ =~= moves_body_spec(moves@, i + 1 as int));
        }
        i = i + 1;
    }
    out.push(10);
    proof {
        assert(out@ =~= moves_body_spec(moves@, moves@.len() as int) + seq![10u8]);
    }
    out
}

} // verus!
