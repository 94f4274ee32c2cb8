use vstd::prelude::*;
use crate::token::{Profile, ScriptError, token_slot, parse_token};

verus! {

/// One script line, parsed.
#[derive(Debug)]
pub enum Directive {
    /// `<`: bytes to write to the peer.
    Send(Vec<u8>),
    /// `>`: the pattern that the peer's next bytes must match; `None` matches any byte.
    Expect(Vec<Option<u8>>),
    /// Any other line: a comment or a blank.
    Skip,
}

/// What a directive means.
pub ghost enum DirectiveModel {
    Send(Seq<u8>),
    Expect(Seq<Option<u8>>),
    Skip,
}

impl View for Directive {
    type V = DirectiveModel;

    open spec fn view(&self) -> DirectiveModel {
        match self {
            Directive::Send(b) => DirectiveModel::Send(b@),
            Directive::Expect(m) => DirectiveModel::Expect(m@),
            Directive::Skip => DirectiveModel::Skip,
        }
    }
}

pub open spec fn trim_start(s: Seq<u8>) -> Seq<u8>
    decreases s.len(),
{
    if s.len() > 0 && s[0] == ' ' as u8 {
        trim_start(s.drop_first())
    } else {
        s
    }
}

pub open spec fn trim_end(s: Seq<u8>) -> Seq<u8>
    decreases s.len(),
{
    if s.len() > 0 && s.last() == ' ' as u8 {
        trim_end(s.drop_last())
    } else {
        s
    }
}

/// `s` without the spaces at either end.
pub open spec fn trim_spaces(s: Seq<u8>) -> Seq<u8> {
    trim_end(trim_start(s))
}

/// The pieces of `s` between single spaces: `k` spaces give `k + 1` pieces,
/// some of which may be empty.
pub open spec fn split_spaces(s: Seq<u8>) -> Seq<Seq<u8>>
    decreases s.len(),
{
    if s.len() == 0 {
        seq![Seq::empty()]
    } else {
        let p = split_spaces(s.drop_last());
        if s.last() == ' ' as u8 {
            p.push(Seq::empty())
        } else {
            p.update(p.len() - 1, p.last().push(s.last()))
        }
    }
}

/// The tokens of a `<` or `>` line: what follows the first character,
/// trimmed of spaces and split at each space.
pub open spec fn line_tokens(line: Seq<u8>) -> Seq<Seq<u8>> {
    split_spaces(trim_spaces(line.drop_first()))
}

pub open spec fn all_tokens_valid(p: Profile, toks: Seq<Seq<u8>>) -> bool {
    forall|k: int| 0 <= k < toks.len() ==> (#[trigger] token_slot(p, toks[k])) is Some
}

/// The slots that valid tokens resolve to.
pub open spec fn token_slots(p: Profile, toks: Seq<Seq<u8>>) -> Seq<Option<u8>> {
    toks.map_values(|t: Seq<u8>| token_slot(p, t).unwrap())
}

/// What a send writes for a slot: the wildcard becomes zero.
pub open spec fn send_byte(slot: Option<u8>) -> u8 {
    match slot {
        Some(b) => b,
        None => 0,
    }
}

pub open spec fn send_bytes(slots: Seq<Option<u8>>) -> Seq<u8> {
    slots.map_values(|o: Option<u8>| send_byte(o))
}

pub open spec fn is_send_line(line: Seq<u8>) -> bool {
    line.len() > 0 && line[0] == '<' as u8
}

pub open spec fn is_expect_line(line: Seq<u8>) -> bool {
    line.len() > 0 && line[0] == '>' as u8
}

/// What a script line means in profile `p`; `None` where one of its tokens
/// is invalid.
pub open spec fn line_directive(p: Profile, line: Seq<u8>) -> Option<DirectiveModel> {
    if is_send_line(line) || is_expect_line(line) {
        let toks = line_tokens(line);
        if !all_tokens_valid(p, toks) {
            None
        } else if is_send_line(line) {
            Some(DirectiveModel::Send(send_bytes(token_slots(p, toks))))
        } else {
            Some(DirectiveModel::Expect(token_slots(p, toks)))
        }
    } else {
        Some(DirectiveModel::Skip)
    }
}

/// The start and end of `line[1..]` without its outer spaces.
fn trimmed_bounds(line: &[u8]) -> (r: (usize, usize))
    requires
        line@.len() > 0,
    ensures
        1 <= r.0 <= r.1 <= line@.len(),
        trim_spaces(line@.drop_first()) == line@.subrange(r.0 as int, r.1 as int),
{
    let n = line.len();
    let mut lo: usize = 1;
    assert(line@.subrange(1, n as int) =~= line@.drop_first());
    while lo < n && line[lo] == ' ' as u8
        invariant
            1 <= lo <= n,
            n == line@.len(),
            trim_start(line@.drop_first()) == trim_start(line@.subrange(lo as int, n as int)),
        decreases n - lo,
    {
        assert(line@.subrange(lo as int, n as int).drop_first() =~= line@.subrange(
            lo + 1,
            n as int,
        ));
        lo = lo + 1;
    }
    let mut hi: usize = n;
    assert(trim_start(line@.drop_first()) == line@.subrange(lo as int, n as int));
    while hi > lo && line[hi - 1] == ' ' as u8
        invariant
            1 <= lo <= hi <= n,
            n == line@.len(),
            trim_spaces(line@.drop_first()) == trim_end(line@.subrange(lo as int, hi as int)),
        decreases hi - lo,
    {
        assert(line@.subrange(lo as int, hi as int).drop_last() =~= line@.subrange(
            lo as int,
            hi - 1,
        ));
        hi = hi - 1;
    }
    (lo, hi)
}

/// The bounds of the pieces of `line[lo..hi]` between single spaces.
fn split_bounds(line: &[u8], lo: usize, hi: usize) -> (r: Vec<(usize, usize)>)
    requires
        lo <= hi <= line@.len(),
    ensures
        r@.len() == split_spaces(line@.subrange(lo as int, hi as int)).len(),
        forall|k: int|
            #![trigger r@[k]]
            0 <= k < r@.len() ==> r@[k].0 <= r@[k].1 <= line@.len() && line@.subrange(
                r@[k].0 as int,
                r@[k].1 as int,
            ) == split_spaces(line@.subrange(lo as int, hi as int))[k],
{
    let mut bounds: Vec<(usize, usize)> = Vec::new();
    let ghost mut done: Seq<Seq<u8>> = Seq::empty();
    let mut start: usize = lo;
    let mut i: usize = lo;
    assert(line@.subrange(lo as int, lo as int) =~= Seq::<u8>::empty());
    assert(split_spaces(Seq::<u8>::empty()) =~= done.push(Seq::<u8>::empty()));
    while i < hi
        invariant
            lo <= start <= i <= hi <= line@.len(),
            split_spaces(line@.subrange(lo as int, i as int)) == done.push(
                line@.subrange(start as int, i as int),
            ),
            bounds@.len() == done.len(),
            forall|k: int|
                #![trigger bounds@[k]]
                0 <= k < bounds@.len() ==> bounds@[k].0 <= bounds@[k].1 <= line@.len()
                    && line@.subrange(bounds@[k].0 as int, bounds@[k].1 as int) == done[k],
        decreases hi - i,
    {
        let ghost prefix = line@.subrange(lo as int, i + 1);
        assert(prefix.drop_last() =~= line@.subrange(lo as int, i as int));
        assert(prefix.last() == line@[i as int]);
        if line[i] == ' ' as u8 {
            bounds.push((start, i));
            proof {
                done = done.push(line@.subrange(start as int, i as int));
                assert(line@.subrange(i + 1, i + 1) =~= Seq::<u8>::empty());
            }
            start = i + 1;
        } else {
            assert(line@.subrange(start as int, i + 1) =~= line@.subrange(
                start as int,
                i as int,
            ).push(line@[i as int]));
            assert(split_spaces(prefix) =~= done.push(line@.subrange(start as int, i + 1)));
        }
        i = i + 1;
    }
    bounds.push((start, hi));
    proof {
        done = done.push(line@.subrange(start as int, hi as int));
    }
    bounds
}

/// Parses one script line (without its line break) in profile `p`. A line
/// that starts with `<` sends its tokens, with `_` sent as zero; one that
/// starts with `>` expects them; any other line is skipped. The tokens are
/// what follows the first character, trimmed of spaces and split at each
/// single space; an invalid token, an empty one included, is an error.
pub fn parse_line(p: Profile, line: &[u8]) -> (r: Result<Directive, ScriptError>)
    ensures
        match r {
            Ok(d) => line_directive(p, line@) == Some(d@),
            Err(ScriptError::InvalidToken(u)) => line_directive(p, line@) is None && exists|k: int|
                0 <= k < line_tokens(line@).len() && line_tokens(line@)[k] == u@ && token_slot(
                    p,
                    u@,
                ) is None,
        },
{
    let send = line.len() > 0 && line[0] == '<' as u8;
    let expect = line.len() > 0 && line[0] == '>' as u8;
    if !send && !expect {
        return Ok(Directive::Skip);
    }
    let (lo, hi) = trimmed_bounds(line);
    let bounds = split_bounds(line, lo, hi);
    let ghost toks = line_tokens(line@);
    let mut slots: Vec<Option<u8>> = Vec::new();
    let mut k: usize = 0;
    while k < bounds.len()
        invariant
            send == is_send_line(line@),
            expect == is_expect_line(line@),
            send || expect,
            toks == line_tokens(line@),
            bounds@.len() == toks.len(),
            forall|j: int|
                #![trigger bounds@[j]]
                0 <= j < bounds@.len() ==> bounds@[j].0 <= bounds@[j].1 <= line@.len()
                    && line@.subrange(bounds@[j].0 as int, bounds@[j].1 as int) == toks[j],
            0 <= k <= bounds@.len(),
            slots@ == token_slots(p, toks.subrange(0, k as int)),
            forall|j: int| 0 <= j < k ==> (#[trigger] token_slot(p, toks[j])) is Some,
        decreases bounds@.len() - k,
    {
        let (a, b) = bounds[k];
        match parse_token(p, &line[a..b]) {
            Ok(v) => {
                slots.push(v);
                assert(token_slots(p, toks.subrange(0, k + 1)) =~= token_slots(
                    p,
                    toks.subrange(0, k as int),
                ).push(v));
            },
            Err(e) => {
                assert(toks[k as int] == line@.subrange(a as int, b as int));
                assert(token_slot(p, toks[k as int]) is None);
                let ghost u = match &e {
                    ScriptError::InvalidToken(u) => u@,
                };
                assert(0 <= k < toks.len() && toks[k as int] == u && token_slot(p, u) is None);
                return Err(e);
            },
        }
        k = k + 1;
    }
    assert(toks.subrange(0, toks.len() as int) =~= toks);
    if send {
        let mut bytes: Vec<u8> = Vec::new();
        let mut j: usize = 0;
        while j < slots.len()
            invariant
                0 <= j <= slots@.len(),
                bytes@ == send_bytes(slots@.subrange(0, j as int)),
            decreases slots@.len() - j,
        {
            let b = match slots[j] {
                Some(b) => b,
                None => 0,
            };
            bytes.push(b);
            assert(send_bytes(slots@.subrange(0, j + 1)) =~= send_bytes(
                slots@.subrange(0, j as int),
            ).push(b));
            j = j + 1;
        }
        assert(slots@.subrange(0, slots@.len() as int) =~= slots@);
        Ok(Directive::Send(bytes))
    } else {
        Ok(Directive::Expect(slots))
    }
}

/// A send line with `k` tokens writes exactly `k` bytes.
pub proof fn lemma_send_len(p: Profile, line: Seq<u8>)
    requires
        line_directive(p, line) matches Some(DirectiveModel::Send(_)),
    ensures
        line_directive(p, line) matches Some(DirectiveModel::Send(b)) && b.len() == line_tokens(
            line,
        ).len(),
{
}

/// An expect line with `k` tokens has a pattern of exactly `k` slots.
pub proof fn lemma_expect_len(p: Profile, line: Seq<u8>)
    requires
        line_directive(p, line) matches Some(DirectiveModel::Expect(_)),
    ensures
        line_directive(p, line) matches Some(DirectiveModel::Expect(m)) && m.len()
            == line_tokens(line).len(),
{
}

} // verus!
