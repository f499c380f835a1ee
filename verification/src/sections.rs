//! Preparing the crawl output for downstream formatting: a deterministic
//! order over the results and the per-page sections text.

use vstd::prelude::*;
use vstd::string::StringExecFns;
use crate::batch::PageResult;
use crate::text::{lex_le, str_le, lemma_lex_le_total, lemma_lex_le_trans};

verus! {

broadcast use vstd::seq_lib::group_to_multiset_ensures, vstd::multiset::group_multiset_axioms;

/// The path component of `s` read as an absolute URL; `None` when `s` does
/// not parse as an absolute URL.
pub uninterp spec fn url_path(s: Seq<char>) -> Option<Seq<char>>;

/// Relies on `url::Url::parse` and `url::Url::path`: the path component of
/// a URL string is a function of that string alone.
#[verifier::external_body]
pub(crate) fn parse_path(u: &str) -> (r: Option<String>)
    ensures
        r.deep_view() == url_path(u@),
{
    url::Url::parse(u).ok().map(|p| p.path().to_string())
}

/// Whether results stand in nondecreasing URL order.
pub open spec fn sorted_by_url(s: Seq<PageResult>) -> bool {
    forall|a: int, b: int| 0 <= a < b < s.len() ==> lex_le(s[a].url@, s[b].url@)
}

/// Sorts results by URL, lexicographically by code point, so that
/// downstream formatting is deterministic: the result is ordered and holds
/// exactly the given entries.
pub fn sort_by_url(results: Vec<PageResult>) -> (r: Vec<PageResult>)
    ensures
        sorted_by_url(r@),
        r@.to_multiset() == results@.to_multiset(),
{
    let ghost m0 = results@.to_multiset();
    let mut remaining = results;
    let mut out: Vec<PageResult> = Vec::new();
    proof {
        assert(out@.to_multiset().add(remaining@.to_multiset()) =~= m0);
    }
    while remaining.len() > 0
        invariant
            out@.to_multiset().add(remaining@.to_multiset()) == m0,
            sorted_by_url(out@),
            forall|a: int, b: int|
                0 <= a < out@.len() && 0 <= b < remaining@.len() ==> lex_le(
                    (#[trigger] out@[a]).url@,
                    (#[trigger] remaining@[b]).url@,
                ),
        decreases remaining@.len(),
    {
        let mut min_i: usize = 0;
        let mut j: usize = 1;
        proof {
            lemma_lex_le_total(remaining@[0].url@, remaining@[0].url@);
        }
        while j < remaining.len()
            invariant
                remaining@.len() > 0,
                min_i < j,
                j <= remaining@.len(),
                min_i < remaining@.len(),
                forall|t: int|
                    0 <= t < j ==> lex_le(remaining@[min_i as int].url@, (#[trigger] remaining@[t]).url@),
            decreases remaining@.len() - j,
        {
            if str_le(remaining[j].url.as_str(), remaining[min_i].url.as_str()) {
                proof {
                    assert forall|t: int| 0 <= t < j + 1 implies lex_le(
                        remaining@[j as int].url@,
                        (#[trigger] remaining@[t]).url@,
                    ) by {
                        if t < j {
                            lemma_lex_le_trans(
                                remaining@[j as int].url@,
                                remaining@[min_i as int].url@,
                                remaining@[t].url@,
                            );
                        } else {
                            lemma_lex_le_total(remaining@[j as int].url@, remaining@[j as int].url@);
                        }
                    }
                }
                min_i = j;
            } else {
                proof {
                    lemma_lex_le_total(remaining@[j as int].url@, remaining@[min_i as int].url@);
                }
            }
            j += 1;
        }
        let ghost rem_pre = remaining@;
        let ghost out_pre = out@;
        let x = remaining.remove(min_i);
        out.push(x);
        proof {
            assert(x == rem_pre[min_i as int]);
            assert(remaining@ == rem_pre.remove(min_i as int));
            assert(rem_pre.contains(rem_pre[min_i as int]));
            assert(remaining@.to_multiset() =~= rem_pre.to_multiset().remove(x));
            assert(out@.to_multiset() =~= out_pre.to_multiset().insert(x));
            assert(rem_pre.to_multiset().count(x) > 0);
            assert(out@.to_multiset().add(remaining@.to_multiset()) =~= m0);
            assert(sorted_by_url(out@)) by {
                assert forall|a: int, b: int| 0 <= a < b < out@.len() implies lex_le(
                    out@[a].url@,
                    out@[b].url@,
                ) by {
                    if b == out@.len() - 1 {
                        assert(out@[a] == out_pre[a]);
                        assert(out@[b] == rem_pre[min_i as int]);
                    } else {
                        assert(out@[a] == out_pre[a]);
                        assert(out@[b] == out_pre[b]);
                    }
                }
            }
            assert forall|a: int, b: int|
                0 <= a < out@.len() && 0 <= b < remaining@.len() implies lex_le(
                (#[trigger] out@[a]).url@,
                (#[trigger] remaining@[b]).url@,
            ) by {
                let rb = if b < min_i { b } else { b + 1 };
                assert(remaining@[b] == rem_pre[rb]);
                if a < out@.len() - 1 {
                    assert(out@[a] == out_pre[a]);
                } else {
                    assert(out@[a] == rem_pre[min_i as int]);
                    assert(lex_le(rem_pre[min_i as int].url@, rem_pre[rb].url@));
                }
            }
        }
    }
    out
}

/// The section shown for one page: its path (the root path spelled out as
/// the home page) and its markup in a fenced block.
pub open spec fn section_for(path: Seq<char>, content: Seq<char>) -> Seq<char> {
    let shown = if path == "/"@ {
        "/ (Home Page)"@
    } else {
        path
    };
    "- "@ + shown + " HTML:\n```html\n"@ + content + "\n```"@
}

/// The sections of the given results, one per result whose URL parses, in
/// order; results with unparseable URLs are skipped.
pub open spec fn sections_of(entries: Seq<PageResult>) -> Seq<Seq<char>>
    decreases entries.len(),
{
    if entries.len() == 0 {
        Seq::empty()
    } else {
        let init = sections_of(entries.drop_last());
        match url_path(entries.last().url@) {
            Some(p) => init.push(section_for(p, entries.last().content@)),
            None => init,
        }
    }
}

/// `parts` joined with one newline between consecutive parts.
pub open spec fn join_lines(parts: Seq<Seq<char>>) -> Seq<char>
    decreases parts.len(),
{
    if parts.len() == 0 {
        Seq::empty()
    } else if parts.len() == 1 {
        parts[0]
    } else {
        join_lines(parts.drop_last()) + "\n"@ + parts.last()
    }
}

/// The page-sections text for the given results: their sections joined by
/// newlines, or a placeholder line when no result produced a section.
pub open spec fn sections_text(entries: Seq<PageResult>) -> Seq<char> {
    if sections_of(entries).len() == 0 {
        "[No pages scraped]"@
    } else {
        join_lines(sections_of(entries))
    }
}

/// Renders the page sections of `page_contents`, in the given order: one
/// section per page whose URL parses, joined by newlines, or a placeholder
/// when there are none. Callers sort the results first when they need a
/// deterministic document.
pub fn build_page_sections(page_contents: &Vec<PageResult>) -> (r: String)
    ensures
        r@ == sections_text(page_contents@),
{
    let ghost full = page_contents@;
    let mut acc = String::new();
    let mut count: usize = 0;
    let mut i: usize = 0;
    proof {
        assert(full.take(0) =~= Seq::<PageResult>::empty());
    }
    while i < page_contents.len()
        invariant
            i <= full.len(),
            full == page_contents@,
            count <= i,
            count as int == sections_of(full.take(i as int)).len(),
            count > 0 ==> acc@ == join_lines(sections_of(full.take(i as int))),
            count == 0 ==> acc@ == Seq::<char>::empty(),
        decreases full.len() - i,
    {
        proof {
            assert(full.take(i + 1).drop_last() =~= full.take(i as int));
            assert(full.take(i + 1).last() == full[i as int]);
        }
        let e = &page_contents[i];
        match parse_path(e.url.as_str()) {
            Some(p) => {
                let ghost sections_pre = sections_of(full.take(i as int));
                let home = String::from_str("/");
                let mut sec = String::new();
                sec.append("- ");
                if p == home {
                    sec.append("/ (Home Page)");
                } else {
                    sec.append(p.as_str());
                }
                sec.append(" HTML:\n```html\n");
                sec.append(e.content.as_str());
                sec.append("\n```");
                proof {
                    assert(sec@ =~= section_for(p@, full[i as int].content@));
                    assert(sections_of(full.take(i + 1)) == sections_pre.push(sec@));
                }
                if count == 0 {
                    acc.append(sec.as_str());
                    proof {
                        assert(acc@ =~= sec@);
                        assert(join_lines(sections_of(full.take(i + 1))) == sec@);
                    }
                } else {
                    acc.append("\n");
                    acc.append(sec.as_str());
                    proof {
                        assert(sections_of(full.take(i + 1)).drop_last() =~= sections_pre);
                        assert(join_lines(sections_of(full.take(i + 1))) == join_lines(
                            sections_pre,
                        ) + "\n"@ + sec@);
                        assert(acc@ =~= join_lines(sections_pre) + "\n"@ + sec@);
                    }
                }
                count = count + 1;
            },
            None => {
                proof {
                    assert(sections_of(full.take(i + 1)) == sections_of(full.take(i as int)));
                }
            },
        }
        i += 1;
    }
    proof {
        assert(full.take(full.len() as int) =~= full);
    }
    if count == 0 {
        let mut msg = String::new();
        msg.append("[No pages scraped]");
        proof {
            assert(msg@ =~= "[No pages scraped]"@);
        }
        msg
    } else {
        acc
    }
}

} // verus!
