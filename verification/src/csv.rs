//! The quote-aware delimited-text parser: a state machine over grapheme
//! clusters that turns one line into its column texts.
//!
//! A column is either plain (ended by `,`) or quoted (wrapped in `"`, with a
//! doubled `""` standing for one literal quote). Text after a closing quote,
//! a leading separator and a line that ends inside a quoted column are
//! structural errors.

use crate::shims::graphemes_of;
use crate::shims::split_graphemes;
use vstd::prelude::*;

verus! {

/// A structural fault in a delimited line.
#[derive(Debug, Clone, Copy, PartialEq, Eq)]
pub enum CsvError {
    /// The line begins with a separator: an empty leading column is not
    /// permitted.
    LeadingSeparator,
    /// The line ended while a quoted column was still open.
    UnclosedQuote,
    /// Something other than a separator followed a closed quoted column.
    SeparatorExpected,
}

/// Where the machine stands between clusters.
#[derive(Debug, Clone, Copy, PartialEq, Eq)]
pub enum CsvPhase {
    /// Before the first cluster of the line.
    Start,
    /// Inside an unquoted column.
    Plain,
    /// Inside a quoted column.
    Quoted,
    /// Just behind the quote that may close a quoted column.
    QuotedEnd,
    /// Just behind a separator.
    Sep,
}

/// The whole machine state: the finished columns, the phase, and the column
/// being gathered.
pub struct CsvSt {
    pub cols: Seq<Seq<char>>,
    pub phase: CsvPhase,
    pub buf: Seq<char>,
}

/// A one-character cluster.
pub open spec fn cl(c: char) -> Seq<char> {
    seq![c]
}

pub open spec fn csv_init() -> CsvSt {
    CsvSt { cols: Seq::empty(), phase: CsvPhase::Start, buf: Seq::empty() }
}

/// One cluster of input.
pub open spec fn csv_step(st: CsvSt, g: Seq<char>) -> Result<CsvSt, CsvError> {
    match st.phase {
        CsvPhase::Start => {
            if g == cl(',') {
                Err(CsvError::LeadingSeparator)
            } else if g == cl('"') {
                Ok(CsvSt { phase: CsvPhase::Quoted, buf: Seq::empty(), ..st })
            } else {
                Ok(CsvSt { phase: CsvPhase::Plain, buf: g, ..st })
            }
        },
        CsvPhase::Plain => {
            if g == cl(',') {
                Ok(CsvSt { cols: st.cols.push(st.buf), phase: CsvPhase::Sep, buf: Seq::empty() })
            } else {
                Ok(CsvSt { buf: st.buf + g, ..st })
            }
        },
        CsvPhase::Quoted => {
            if g == cl('"') {
                Ok(CsvSt { phase: CsvPhase::QuotedEnd, ..st })
            } else {
                Ok(CsvSt { buf: st.buf + g, ..st })
            }
        },
        CsvPhase::QuotedEnd => {
            if g == cl('"') {
                Ok(CsvSt { phase: CsvPhase::Quoted, buf: st.buf + cl('"'), ..st })
            } else if g == cl(',') {
                Ok(CsvSt { cols: st.cols.push(st.buf), phase: CsvPhase::Sep, buf: Seq::empty() })
            } else {
                Err(CsvError::SeparatorExpected)
            }
        },
        CsvPhase::Sep => {
            if g == cl(',') {
                Ok(CsvSt { cols: st.cols.push(Seq::empty()), ..st })
            } else if g == cl('"') {
                Ok(CsvSt { phase: CsvPhase::Quoted, buf: Seq::empty(), ..st })
            } else {
                Ok(CsvSt { phase: CsvPhase::Plain, buf: g, ..st })
            }
        },
    }
}

/// The machine run over a cluster sequence, from a given state.
pub open spec fn csv_steps(st: CsvSt, gs: Seq<Seq<char>>) -> Result<CsvSt, CsvError>
    decreases gs.len(),
{
    if gs.len() == 0 {
        Ok(st)
    } else {
        match csv_step(st, gs[0]) {
            Err(e) => Err(e),
            Ok(st2) => csv_steps(st2, gs.drop_first()),
        }
    }
}

/// End of line: a plain column or a closed quoted column still in the buffer
/// is emitted; an open quoted column is a fault.
pub open spec fn csv_finish(st: CsvSt) -> Result<Seq<Seq<char>>, CsvError> {
    match st.phase {
        CsvPhase::Start => Ok(st.cols),
        CsvPhase::Plain => Ok(st.cols.push(st.buf)),
        CsvPhase::Quoted => Err(CsvError::UnclosedQuote),
        CsvPhase::QuotedEnd => Ok(st.cols.push(st.buf)),
        CsvPhase::Sep => Ok(st.cols),
    }
}

/// What parsing a line split into clusters yields.
pub open spec fn parse_clusters_spec(gs: Seq<Seq<char>>) -> Result<Seq<Seq<char>>, CsvError> {
    match csv_steps(csv_init(), gs) {
        Err(e) => Err(e),
        Ok(st) => csv_finish(st),
    }
}

/// Whether this cluster is exactly the one character `c`.
fn cluster_is(g: &String, c: char) -> (r: bool)
    ensures
        r == (g@ == cl(c)),
{
    let n = g.as_str().unicode_len();
    if n == 1 {
        let r = g.as_str().get_char(0) == c;
        proof {
            if r {
                assert(g@ =~= cl(c));
            }
        }
        r
    } else {
        false
    }
}

/// Runs the column machine over ready-made clusters.
pub fn parse_csv_clusters(clusters: &Vec<String>) -> (r: Result<Vec<String>, CsvError>)
    ensures
        match r {
            Ok(cols) => parse_clusters_spec(clusters.deep_view()) == Ok::<_, CsvError>(
                cols.deep_view(),
            ),
            Err(e) => parse_clusters_spec(clusters.deep_view()) == Err::<Seq<Seq<char>>, _>(e),
        },
{
    let ghost gs = clusters.deep_view();
    let mut cols: Vec<String> = Vec::new();
    let mut buf = String::new();
    let mut phase = CsvPhase::Start;
    proof {
        assert(gs.skip(0) =~= gs);
        assert(cols.deep_view() =~= Seq::<Seq<char>>::empty());
        assert(CsvSt { cols: cols.deep_view(), phase: phase, buf: buf@ } == csv_init());
    }
    let mut i: usize = 0;
    while i < clusters.len()
        invariant
            i <= clusters.len(),
            gs == clusters.deep_view(),
            gs.len() == clusters.len(),
            csv_steps(csv_init(), gs) == csv_steps(
                CsvSt { cols: cols.deep_view(), phase: phase, buf: buf@ },
                gs.skip(i as int),
            ),
            (phase is Start || phase is Sep) ==> buf@.len() == 0,
        decreases clusters.len() - i,
    {
        let ghost st = CsvSt { cols: cols.deep_view(), phase: phase, buf: buf@ };
        let g = &clusters[i];
        proof {
            assert(gs.skip(i as int)[0] == gs[i as int]);
            assert(gs.skip(i as int).drop_first() =~= gs.skip(i + 1));
            assert(g@ == gs[i as int]);
        }
        let comma = cluster_is(g, ',');
        let quote = cluster_is(g, '"');
        match phase {
            CsvPhase::Start => {
                if comma {
                    return Err(CsvError::LeadingSeparator);
                } else if quote {
                    phase = CsvPhase::Quoted;
                } else {
                    phase = CsvPhase::Plain;
                    buf.append(g.as_str());
                }
            },
            CsvPhase::Plain => {
                if comma {
                    cols.push(buf);
                    proof {
                        assert(cols.deep_view() =~= st.cols.push(st.buf));
                    }
                    buf = String::new();
                    phase = CsvPhase::Sep;
                } else {
                    buf.append(g.as_str());
                }
            },
            CsvPhase::Quoted => {
                if quote {
                    phase = CsvPhase::QuotedEnd;
                } else {
                    buf.append(g.as_str());
                }
            },
            CsvPhase::QuotedEnd => {
                if quote {
                    phase = CsvPhase::Quoted;
                    buf.append("\"");
                    proof {
                        reveal_strlit("\"");
                        assert(("\"")@ =~= cl('"'));
                    }
                } else if comma {
                    cols.push(buf);
                    proof {
                        assert(cols.deep_view() =~= st.cols.push(st.buf));
                    }
                    buf = String::new();
                    phase = CsvPhase::Sep;
                } else {
                    return Err(CsvError::SeparatorExpected);
                }
            },
            CsvPhase::Sep => {
                if comma {
                    cols.push(String::new());
                    proof {
                        assert(cols.deep_view() =~= st.cols.push(Seq::<char>::empty()));
                    }
                } else if quote {
                    phase = CsvPhase::Quoted;
                } else {
                    phase = CsvPhase::Plain;
                    buf.append(g.as_str());
                }
            },
        }
        proof {
            let st2 = CsvSt { cols: cols.deep_view(), phase: phase, buf: buf@ };
            if st.phase is Start || st.phase is Sep {
                assert(st.buf =~= Seq::<char>::empty());
                assert(st.buf + gs[i as int] =~= gs[i as int]);
            }
            assert(csv_step(st, gs[i as int]) == Ok::<_, CsvError>(st2));
        }
        i = i + 1;
    }
    proof {
        assert(gs.skip(gs.len() as int) =~= Seq::<Seq<char>>::empty());
    }
    match phase {
        CsvPhase::Start => Ok(cols),
        CsvPhase::Plain => {
            let ghost prev = cols.deep_view();
            cols.push(buf);
            proof {
                assert(cols.deep_view() =~= prev.push(buf@));
            }
            Ok(cols)
        },
        CsvPhase::Quoted => Err(CsvError::UnclosedQuote),
        CsvPhase::QuotedEnd => {
            let ghost prev = cols.deep_view();
            cols.push(buf);
            proof {
                assert(cols.deep_view() =~= prev.push(buf@));
            }
            Ok(cols)
        },
        CsvPhase::Sep => Ok(cols),
    }
}

/// Splits one line into grapheme clusters and parses it into its columns.
pub fn parse_csv(line: &str) -> (r: Result<Vec<String>, CsvError>)
    ensures
        match r {
            Ok(cols) => parse_clusters_spec(graphemes_of(line@)) == Ok::<_, CsvError>(
                cols.deep_view(),
            ),
            Err(e) => parse_clusters_spec(graphemes_of(line@)) == Err::<Seq<Seq<char>>, _>(e),
        },
{
    let clusters = split_graphemes(line);
    parse_csv_clusters(&clusters)
}

} // verus!

verus! {

/// The cluster stream that encodes a text inside one quoted column: each
/// quote cluster of the text doubled.
pub open spec fn quote_doubled(cs: Seq<Seq<char>>) -> Seq<Seq<char>>
    decreases cs.len(),
{
    if cs.len() == 0 {
        Seq::empty()
    } else {
        (if cs[0] == cl('"') {
            seq![cl('"'), cl('"')]
        } else {
            seq![cs[0]]
        }) + quote_doubled(cs.drop_first())
    }
}

/// The cluster stream that encodes a text as one quoted column: wrapped in
/// quotes, internal quotes doubled.
pub open spec fn quote_wrapped(cs: Seq<Seq<char>>) -> Seq<Seq<char>> {
    seq![cl('"')] + quote_doubled(cs) + seq![cl('"')]
}

proof fn lemma_quoted_consumes(
    cols: Seq<Seq<char>>,
    buf: Seq<char>,
    cs: Seq<Seq<char>>,
    tail: Seq<Seq<char>>,
)
    ensures
        csv_steps(CsvSt { cols: cols, phase: CsvPhase::Quoted, buf: buf }, quote_doubled(cs) + tail)
            == csv_steps(
            CsvSt { cols: cols, phase: CsvPhase::Quoted, buf: buf + cs.flatten() },
            tail,
        ),
    decreases cs.len(),
{
    if cs.len() == 0 {
        assert(quote_doubled(cs) + tail =~= tail);
        assert(cs.flatten() =~= Seq::<char>::empty());
        assert(buf + cs.flatten() =~= buf);
        assert(CsvSt { cols: cols, phase: CsvPhase::Quoted, buf: buf + cs.flatten() } == CsvSt {
            cols: cols,
            phase: CsvPhase::Quoted,
            buf: buf,
        });
    } else {
        let rest = cs.drop_first();
        let st = CsvSt { cols: cols, phase: CsvPhase::Quoted, buf: buf };
        assert(cs.flatten() == cs[0] + rest.flatten());
        if cs[0] == cl('"') {
            let inp = quote_doubled(cs) + tail;
            assert(inp[0] == cl('"'));
            assert(inp.drop_first() =~= seq![cl('"')] + (quote_doubled(rest) + tail));
            let st1 = CsvSt { cols: cols, phase: CsvPhase::QuotedEnd, buf: buf };
            assert(csv_step(st, inp[0]) == Ok::<_, CsvError>(st1));
            let mid = seq![cl('"')] + (quote_doubled(rest) + tail);
            assert(mid[0] == cl('"'));
            assert(mid.drop_first() =~= quote_doubled(rest) + tail);
            let st2 = CsvSt { cols: cols, phase: CsvPhase::Quoted, buf: buf + cl('"') };
            assert(csv_step(st1, mid[0]) == Ok::<_, CsvError>(st2));
            assert(csv_steps(st, inp) == csv_steps(st1, inp.drop_first()));
            assert(csv_steps(st1, mid) == csv_steps(st2, mid.drop_first()));
            lemma_quoted_consumes(cols, buf + cl('"'), rest, tail);
            assert(buf + cl('"') + rest.flatten() =~= buf + cs.flatten());
            assert(CsvSt {
                cols: cols,
                phase: CsvPhase::Quoted,
                buf: buf + cl('"') + rest.flatten(),
            } == CsvSt { cols: cols, phase: CsvPhase::Quoted, buf: buf + cs.flatten() });
        } else {
            let inp = quote_doubled(cs) + tail;
            assert(inp[0] == cs[0]);
            assert(inp.drop_first() =~= quote_doubled(rest) + tail);
            let st1 = CsvSt { cols: cols, phase: CsvPhase::Quoted, buf: buf + cs[0] };
            assert(csv_step(st, inp[0]) == Ok::<_, CsvError>(st1));
            assert(csv_steps(st, inp) == csv_steps(st1, inp.drop_first()));
            lemma_quoted_consumes(cols, buf + cs[0], rest, tail);
            assert(buf + cs[0] + rest.flatten() =~= buf + cs.flatten());
            assert(CsvSt { cols: cols, phase: CsvPhase::Quoted, buf: buf + cs[0] + rest.flatten() }
                == CsvSt { cols: cols, phase: CsvPhase::Quoted, buf: buf + cs.flatten() });
        }
    }
}

/// Round trip through the quoting convention: take any text, split into
/// clusters; wrap it in quotes and double every internal quote; parsing the
/// result yields exactly one column, and that column is the original text.
pub proof fn lemma_csv_round_trip(cs: Seq<Seq<char>>)
    ensures
        parse_clusters_spec(quote_wrapped(cs)) == Ok::<_, CsvError>(seq![cs.flatten()]),
{
    let inp = quote_wrapped(cs);
    assert(inp[0] == cl('"'));
    assert(inp.drop_first() =~= quote_doubled(cs) + seq![cl('"')]);
    let st1 = CsvSt { cols: Seq::empty(), phase: CsvPhase::Quoted, buf: Seq::empty() };
    assert(csv_step(csv_init(), inp[0]) == Ok::<_, CsvError>(st1)) by {
        assert(cl('"')[0] == '"');
        assert(cl(',')[0] == ',');
        assert(cl('"') != cl(','));
    }
    assert(csv_steps(csv_init(), inp) == csv_steps(st1, inp.drop_first()));
    lemma_quoted_consumes(Seq::empty(), Seq::empty(), cs, seq![cl('"')]);
    let st2 = CsvSt {
        cols: Seq::empty(),
        phase: CsvPhase::Quoted,
        buf: Seq::<char>::empty() + cs.flatten(),
    };
    let last = seq![cl('"')];
    assert(last[0] == cl('"'));
    assert(last.drop_first() =~= Seq::<Seq<char>>::empty());
    let st3 = CsvSt { cols: Seq::empty(), phase: CsvPhase::QuotedEnd, buf: st2.buf };
    assert(csv_step(st2, last[0]) == Ok::<_, CsvError>(st3));
    assert(csv_steps(st3, last.drop_first()) == Ok::<_, CsvError>(st3));
    assert(Seq::<char>::empty() + cs.flatten() =~= cs.flatten());
    assert(csv_finish(st3) == Ok::<_, CsvError>(Seq::<Seq<char>>::empty().push(cs.flatten())));
    assert(Seq::<Seq<char>>::empty().push(cs.flatten()) =~= seq![cs.flatten()]);
}

} // verus!
