//! The MCP client's reading of a Streamable HTTP reply: the JSON-RPC answer
//! is the payload of the last SSE event that carries data.
use vstd::prelude::*;

use crate::file::{join_lines_spec, lines_of, next_match, text_lines};
use crate::message::{json_parse, parse_json};
use crate::text::{find_sub, push_str, string_from_chars, string_from_range, trim, trim_string};

verus! {

broadcast use vstd::string::group_string_axioms;

/// The blank line that ends an SSE event.
pub open spec fn event_separator() -> Seq<char> {
    "\n\n"@
}

/// The pieces of `t` between occurrences of `sep` (`str::split`).
pub open spec fn split_pieces(t: Seq<char>, sep: Seq<char>) -> Seq<Seq<char>>
    decreases t.len(),
{
    let k = find_sub(t, sep);
    if k < 0 || sep.len() == 0 || k + sep.len() > t.len() {
        seq![t]
    } else {
        seq![t.take(k)] + split_pieces(t.skip(k + sep.len()), sep)
    }
}

/// The payload of one `data:` line, trimmed, if it is one.
pub open spec fn data_payload(line: Seq<char>) -> Option<Seq<char>> {
    if line.len() >= 5 && line.take(5) == "data:"@ {
        Some(trim(line.skip(5)))
    } else {
        None
    }
}

/// The payloads of the `data:` lines among `ls`, in order.
pub open spec fn data_payloads(ls: Seq<Seq<char>>) -> Seq<Seq<char>>
    decreases ls.len(),
{
    if ls.len() == 0 {
        Seq::empty()
    } else {
        match data_payload(ls.last()) {
            Some(p) => data_payloads(ls.drop_last()).push(p),
            None => data_payloads(ls.drop_last()),
        }
    }
}

/// The data of one event: its `data:` payloads joined by line feeds.
pub open spec fn event_data(block: Seq<char>) -> Seq<char> {
    join_lines_spec(data_payloads(lines_of(block)))
}

/// The data of the last event among `blocks` that has any.
pub open spec fn last_data(blocks: Seq<Seq<char>>) -> Option<Seq<char>>
    decreases blocks.len(),
{
    if blocks.len() == 0 {
        None
    } else if event_data(blocks.last()).len() > 0 {
        Some(event_data(blocks.last()))
    } else {
        last_data(blocks.drop_last())
    }
}

/// What the reply text comes to: the JSON of its last event's data, or why
/// there is none.
pub open spec fn reply_spec(text: Seq<char>) -> Result<serde_json::Value, Seq<char>> {
    match last_data(split_pieces(text, event_separator())) {
        None => Err("MCP HTTP SSE stream had no data event"@),
        Some(d) => match json_parse(d) {
            Some(v) => Ok(v),
            None => Err("MCP HTTP SSE: bad JSON in data event"@),
        },
    }
}

/// The payload of a `data:` line, if it is one.
fn line_payload(line: &Vec<char>) -> (r: Option<String>)
    ensures
        match r {
            Some(s) => data_payload(line@) == Some(s@),
            None => data_payload(line@) is None,
        },
{
    proof {
        reveal_strlit("data:");
    }
    if line.len() >= 5 && line[0] == 'd' && line[1] == 'a' && line[2] == 't' && line[3] == 'a' && line[4] == ':' {
        assert(line@.take(5) =~= "data:"@);
        let rest = string_from_range(line, 5, line.len());
        assert(rest@ =~= line@.skip(5));
        Some(trim_string(rest.as_str()))
    } else {
        assert(line@.len() >= 5 ==> line@.take(5) != "data:"@) by {
            if line@.len() >= 5 && line@.take(5) == "data:"@ {
                assert(line@.take(5)[0] == 'd');
                assert(line@.take(5)[1] == 'a');
                assert(line@.take(5)[2] == 't');
                assert(line@.take(5)[3] == 'a');
                assert(line@.take(5)[4] == ':');
            }
        }
        None
    }
}

/// The data of one event.
pub fn block_data(block: &str) -> (r: String)
    ensures
        r@ == event_data(block@),
{
    let lines = text_lines(block);
    let ghost ls = lines@.map_values(|l: Vec<char>| l@);
    let mut out = String::new();
    let mut any = false;
    for i in 0..lines.len()
        invariant
            ls == lines@.map_values(|l: Vec<char>| l@),
            any == (data_payloads(ls.take(i as int)).len() > 0),
            out@ == join_lines_spec(data_payloads(ls.take(i as int))),
    {
        proof {
            assert(ls.take(i + 1).drop_last() =~= ls.take(i as int));
            assert(ls.take(i + 1).last() == lines@[i as int]@);
        }
        match line_payload(&lines[i]) {
            Some(p) => {
                let ghost before = data_payloads(ls.take(i as int));
                if any {
                    push_str(&mut out, "\n");
                }
                push_str(&mut out, p.as_str());
                any = true;
                proof {
                    if before.len() == 0 {
                        assert(before.push(p@).len() == 1);
                        assert(before.push(p@)[0] == p@);
                        assert(out@ =~= p@);
                    } else {
                        assert(before.push(p@).drop_last() =~= before);
                    }
                }
            },
            None => {},
        }
    }
    assert(ls.take(ls.len() as int) =~= ls);
    out
}

/// The JSON-RPC answer that a Streamable HTTP reply carries: the JSON of
/// the data of its last event that has data.
pub fn extract_last_event_data(text: &str) -> (r: Result<serde_json::Value, String>)
    ensures
        match reply_spec(text@) {
            Ok(v) => r == Ok::<serde_json::Value, String>(v),
            Err(m) => r is Err && r->Err_0@ == m,
        },
{
    let v = crate::text::chars_of(text);
    let sep = crate::text::chars_of("\n\n");
    proof {
        reveal_strlit("\n\n");
    }
    let ghost blocks_all = split_pieces(text@, event_separator());
    let mut last: Option<String> = None;
    let mut from: usize = 0;
    let mut done = false;
    assert(v@.skip(0) =~= v@);
    let ghost mut seen: Seq<Seq<char>> = Seq::empty();
    while !done
        invariant
            v@ == text@,
            sep@ == event_separator(),
            from <= v@.len(),
            done ==> blocks_all == seen,
            !done ==> blocks_all == seen + split_pieces(v@.skip(from as int), sep@),
            match last {
                Some(s) => last_data(seen) == Some(s@),
                None => last_data(seen) is None,
            },
        decreases v@.len() - from + (if done { 0int } else { 1int }),
    {
        let ghost t = v@.skip(from as int);
        proof {
            reveal_strlit("\n\n");
        }
        let n = v.len();
        let (piece, next) = match next_match(&v, &sep, from) {
            Some(i) => {
                assert(sep@.len() == 2);
                assert(i + 2 <= n);
                let end = i;
                let p = string_from_range(&v, from, end);
                assert(p@ =~= t.take(i - from));
                proof {
                    assert(t.skip(i - from + 2) =~= v@.skip(i + 2));
                }
                (p, Some(i + 2))
            },
            None => {
                let p = string_from_range(&v, from, v.len());
                assert(p@ =~= t);
                (p, None)
            },
        };
        let d = block_data(piece.as_str());
        proof {
            assert((seen.push(piece@)).drop_last() =~= seen);
        }
        if !d.as_str().is_empty() {
            last = Some(d);
        }
        proof {
            let s2 = seen.push(piece@);
            assert(s2.last() == piece@);
            seen = s2;
        }
        match next {
            Some(n) => {
                proof {
                    assert(blocks_all =~= seen + split_pieces(v@.skip(n as int), sep@));
                }
                from = n;
            },
            None => {
                proof {
                    assert(blocks_all =~= seen);
                }
                done = true;
            },
        }
    }
    match last {
        None => {
            let mut m = String::new();
            push_str(&mut m, "MCP HTTP SSE stream had no data event");
            Err(m)
        },
        Some(d) => match parse_json(d.as_str()) {
            Some(v) => Ok(v),
            None => {
                let mut m = String::new();
                push_str(&mut m, "MCP HTTP SSE: bad JSON in data event");
                Err(m)
            },
        },
    }
}

} // verus!
