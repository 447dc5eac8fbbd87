//! The settings the bot starts with.
use vstd::prelude::*;
use crate::text::{lacks, push_char};

verus! {

broadcast use vstd::seq_lib::group_seq_properties;

/// The settings of the bot.
pub struct Config {
    pub token: String,
    pub database_url: String,
    pub trainer_ids: Vec<String>,
    pub ai_key: String,
    pub ai_api_url: String,
    pub promt_path: String,
}

/// The pieces of `s` between its commas, in order; a text with `n` commas
/// has `n + 1` pieces, empty ones included.
pub open spec fn split_commas(s: Seq<char>) -> Seq<Seq<char>>
    decreases s.len(),
{
    if s.len() == 0 {
        seq![Seq::empty()]
    } else {
        let rest = split_commas(s.drop_last());
        if s.last() == ',' {
            rest.push(Seq::empty())
        } else {
            rest.update(rest.len() - 1, rest.last().push(s.last()))
        }
    }
}

/// The pieces joined again, a comma between each two.
pub open spec fn join_commas(pieces: Seq<Seq<char>>) -> Seq<char>
    decreases pieces.len(),
{
    if pieces.len() <= 1 {
        if pieces.len() == 1 {
            pieces[0]
        } else {
            Seq::empty()
        }
    } else {
        join_commas(pieces.drop_last()) + seq![','] + pieces.last()
    }
}

/// Splitting at the commas keeps everything else: at least one piece, none
/// holding a comma, and joining them with commas gives the text back.
pub proof fn law_split_commas_join(s: Seq<char>)
    ensures
        split_commas(s).len() >= 1,
        forall|i: int| 0 <= i < split_commas(s).len() ==> lacks(#[trigger] split_commas(s)[i], ','),
        join_commas(split_commas(s)) == s,
    decreases s.len(),
{
    if s.len() > 0 {
        let t = s.drop_last();
        law_split_commas_join(t);
        let rest = split_commas(t);
        let last = s.last();
        if last == ',' {
            let p = rest.push(Seq::<char>::empty());
            assert(p.drop_last() =~= rest);
            assert forall|i: int| 0 <= i < p.len() implies lacks(#[trigger] p[i], ',') by {
                if i < rest.len() {
                    assert(p[i] == rest[i]);
                }
            }
            assert(join_commas(p) =~= t + seq![','] + Seq::<char>::empty());
            assert(s =~= t + seq![',']);
        } else {
            let n = rest.len();
            let p = rest.update(n - 1, rest.last().push(last));
            assert forall|i: int| 0 <= i < p.len() implies lacks(#[trigger] p[i], ',') by {
                if i < n - 1 {
                    assert(p[i] == rest[i]);
                } else {
                    assert(lacks(rest[n - 1], ','));
                    assert forall|j: int| 0 <= j < p[i].len() implies p[i][j] != ',' by {
                        if j < rest[n - 1].len() {
                            assert(p[i][j] == rest[n - 1][j]);
                        }
                    }
                }
            }
            if n == 1 {
                assert(rest[0] =~= t);
                assert(join_commas(p) =~= s);
            } else {
                assert(p.drop_last() =~= rest.drop_last());
                assert(join_commas(rest) == join_commas(rest.drop_last()) + seq![','] + rest.last());
                assert(join_commas(p) =~= join_commas(rest) + seq![last]);
                assert(s =~= t + seq![last]);
            }
        }
    }
}

/// The trainers' chat identifiers listed in `text`, separated by commas.
pub fn parse_trainer_ids(text: &str) -> (res: Vec<String>)
    ensures
        res@.map_values(|p: String| p@) == split_commas(text@),
{
    let n = text.unicode_len();
    let mut pieces: Vec<String> = Vec::new();
    let mut current = String::new();
    let mut i: usize = 0;
    while i < n
        invariant
            i <= n == text@.len(),
            pieces@.map_values(|p: String| p@).push(current@) == split_commas(
                text@.subrange(0, i as int),
            ),
        decreases n - i,
    {
        let c = text.get_char(i);
        let ghost before = pieces@.map_values(|p: String| p@);
        let ghost cur = current@;
        assert(text@.subrange(0, i + 1).drop_last() =~= text@.subrange(0, i as int));
        if c == ',' {
            let done = current;
            current = String::new();
            pieces.push(done);
            proof {
                assert(pieces@.map_values(|p: String| p@) =~= before.push(cur));
                assert(pieces@.map_values(|p: String| p@).push(current@) =~= before.push(cur).push(
                    Seq::empty(),
                ));
            }
        } else {
            push_char(&mut current, c);
            proof {
                let whole = before.push(cur);
                assert(before.push(current@) =~= whole.update(whole.len() - 1, whole.last().push(c)));
            }
        }
        i = i + 1;
    }
    assert(text@.subrange(0, n as int) =~= text@);
    let ghost before = pieces@.map_values(|p: String| p@);
    pieces.push(current);
    proof {
        assert(pieces@.map_values(|p: String| p@) =~= before.push(pieces@.last()@));
    }
    pieces
}

impl Config {
    /// The settings, the trainers' identifiers read from their comma-separated list.
    pub fn from_parts(
        token: String,
        database_url: String,
        trainer_ids: &str,
        ai_key: String,
        ai_api_url: String,
        promt_path: String,
    ) -> (res: Config)
        ensures
            res.token == token,
            res.database_url == database_url,
            res.trainer_ids@.map_values(|p: String| p@) == split_commas(trainer_ids@),
            res.ai_key == ai_key,
            res.ai_api_url == ai_api_url,
            res.promt_path == promt_path,
    {
        Config {
            token,
            database_url,
            trainer_ids: parse_trainer_ids(trainer_ids),
            ai_key,
            ai_api_url,
            promt_path,
        }
    }
}

} // verus!
