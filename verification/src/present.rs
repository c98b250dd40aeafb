//! The presenter's compute: what one notification looks like when shown —
//! its summary line, its body, the web link its action opens — and what
//! the user's reply to the prompt means. Showing the toast itself, and
//! opening the browser, stay with the caller.

use vstd::prelude::*;

use crate::codec::push_bytes;
use crate::data::Notification;
use crate::data::bytes_eq;

verus! {

/// `s` with every occurrence of `pat` replaced by `rep`, leftmost first,
/// without rescanning what was already replaced.
pub open spec fn replaced(s: Seq<u8>, pat: Seq<u8>, rep: Seq<u8>) -> Seq<u8>
    recommends
        pat.len() >= 1,
    decreases s.len(),
{
    if pat.len() == 0 || s.len() < pat.len() {
        s
    } else if s.subrange(0, pat.len() as int) == pat {
        rep + replaced(s.skip(pat.len() as int), pat, rep)
    } else {
        seq![s[0]] + replaced(s.skip(1), pat, rep)
    }
}

/// `api.` — the API host marker dropped from links.
pub open spec fn pat_api() -> Seq<u8> {
    seq![97u8, 112, 105, 46]
}

/// `repos/` — the API path segment dropped from links.
pub open spec fn pat_repos() -> Seq<u8> {
    seq![114u8, 101, 112, 111, 115, 47]
}

/// `/pulls/` — the API spelling of the pull-request path.
pub open spec fn pat_pulls() -> Seq<u8> {
    seq![47u8, 112, 117, 108, 108, 115, 47]
}

/// `/pull/` — the web spelling of the pull-request path.
pub open spec fn rep_pull() -> Seq<u8> {
    seq![47u8, 112, 117, 108, 108, 47]
}

/// The web link a notification's API link points at: the API host marker
/// and `repos/` segment dropped, and `/pulls/` respelled `/pull/`.
pub open spec fn web_url_of(url: Seq<u8>) -> Seq<u8> {
    replaced(
        replaced(replaced(url, pat_api(), Seq::empty()), pat_repos(), Seq::empty()),
        pat_pulls(),
        rep_pull(),
    )
}

/// ` - `
pub open spec fn lit_dash() -> Seq<u8> {
    seq![32u8, 45, 32]
}

/// A notification's summary line: its subject kind, a dash, and the
/// repository it came from.
pub open spec fn summary_of(subject_type: Seq<u8>, repo_name: Seq<u8>) -> Seq<u8> {
    subject_type + lit_dash() + repo_name
}

/// What the user's reply to a prompt asks for.
#[derive(Clone, Copy, Debug, PartialEq, Eq, Structural)]
pub enum PromptReply {
    /// The action was triggered: open the link.
    OpenLink,
    /// The prompt was closed without acting.
    Closed,
    /// Anything else: nothing to do.
    Ignored,
}

/// `default`
pub open spec fn lit_default() -> Seq<u8> {
    seq![100u8, 101, 102, 97, 117, 108, 116]
}

/// `clicked`
pub open spec fn lit_clicked() -> Seq<u8> {
    seq![99u8, 108, 105, 99, 107, 101, 100]
}

/// `__closed`
pub open spec fn lit_closed() -> Seq<u8> {
    seq![95u8, 95, 99, 108, 111, 115, 101, 100]
}

/// What an action identifier handed back by the prompt means.
pub open spec fn reply_of(action: Seq<u8>) -> PromptReply {
    if action == lit_default() || action == lit_clicked() {
        PromptReply::OpenLink
    } else if action == lit_closed() {
        PromptReply::Closed
    } else {
        PromptReply::Ignored
    }
}

/// Classify the action identifier handed back by the prompt.
pub fn classify_action(action: &Vec<u8>) -> (r: PromptReply)
    ensures
        r == reply_of(action@),
{
    let l_default: Vec<u8> = vec![100u8, 101, 102, 97, 117, 108, 116];
    let l_clicked: Vec<u8> = vec![99u8, 108, 105, 99, 107, 101, 100];
    let l_closed: Vec<u8> = vec![95u8, 95, 99, 108, 111, 115, 101, 100];
    proof {
        assert(l_default@ =~= lit_default());
        assert(l_clicked@ =~= lit_clicked());
        assert(l_closed@ =~= lit_closed());
    }
    if bytes_eq(action, &l_default) || bytes_eq(action, &l_clicked) {
        PromptReply::OpenLink
    } else if bytes_eq(action, &l_closed) {
        PromptReply::Closed
    } else {
        PromptReply::Ignored
    }
}

/// `s` with every occurrence of `pat` replaced by `rep`, leftmost first.
pub fn replace_all(s: &Vec<u8>, pat: &Vec<u8>, rep: &Vec<u8>) -> (r: Vec<u8>)
    requires
        pat@.len() >= 1,
    ensures
        r@ == replaced(s@, pat@, rep@),
{
    let mut out: Vec<u8> = Vec::new();
    proof {
        assert(s@.skip(0) =~= s@);
        assert(out@ =~= Seq::<u8>::empty());
        assert(Seq::<u8>::empty() + replaced(s@, pat@, rep@) =~= replaced(s@, pat@, rep@));
    }
    let mut i: usize = 0;
    while i < s.len()
        invariant
            i <= s.len(),
            pat@.len() >= 1,
            out@ + replaced(s@.skip(i as int), pat@, rep@) == replaced(s@, pat@, rep@),
        decreases s.len() - i,
    {
        let ghost rem = s@.skip(i as int);
        proof {
            assert(rem.len() == s@.len() - i);
        }
        match crate::codec::expect_lit(s, i, pat) {
            Some(j) => {
                proof {
                    assert forall|m: int| 0 <= m < pat@.len() implies rem.subrange(
                        0,
                        pat@.len() as int,
                    )[m] == pat@[m] by {
                        assert(s@.subrange(i as int, i + pat@.len() as int)[m] == s@[i + m]);
                        assert(rem.subrange(0, pat@.len() as int)[m] == rem[m]);
                        assert(rem[m] == s@[i + m]);
                    }
                    assert(rem.subrange(0, pat@.len() as int) =~= pat@);
                    assert(rem.skip(pat@.len() as int) =~= s@.skip(i + pat@.len()));
                    assert(replaced(rem, pat@, rep@) == rep@ + replaced(
                        s@.skip(i + pat@.len()),
                        pat@,
                        rep@,
                    ));
                    assert((out@ + rep@) + replaced(s@.skip(i + pat@.len()), pat@, rep@) =~= out@
                        + (rep@ + replaced(s@.skip(i + pat@.len()), pat@, rep@)));
                }
                push_bytes(&mut out, rep);
                i = j;
            },
            None => {
                proof {
                    if rem.len() >= pat@.len() {
                        assert(i + pat@.len() <= s@.len());
                        if rem.subrange(0, pat@.len() as int) == pat@ {
                            assert forall|m: int| 0 <= m < pat@.len() implies s@.subrange(
                                i as int,
                                i + pat@.len() as int,
                            )[m] == pat@[m] by {
                                assert(rem.subrange(0, pat@.len() as int)[m] == rem[m]);
                                assert(s@.subrange(i as int, i + pat@.len() as int)[m] == s@[i
                                    + m]);
                            }
                            assert(s@.subrange(i as int, i + pat@.len() as int) =~= pat@);
                            assert(crate::codec::lit_at(s@, i as int, pat@));
                            assert(false);
                        }
                        assert(replaced(rem, pat@, rep@) == seq![rem[0]] + replaced(
                            rem.skip(1),
                            pat@,
                            rep@,
                        ));
                    } else {
                        assert(replaced(rem, pat@, rep@) == rem);
                        assert(replaced(rem.skip(1), pat@, rep@) == rem.skip(1));
                        assert(seq![rem[0]] + rem.skip(1) =~= rem);
                    }
                    assert(rem[0] == s@[i as int]);
                    assert(rem.skip(1) =~= s@.skip(i + 1));
                    assert((out@ + seq![s@[i as int]]) + replaced(s@.skip(i + 1), pat@, rep@)
                        =~= out@ + (seq![s@[i as int]] + replaced(s@.skip(i + 1), pat@, rep@)));
                }
                out.push(s[i]);
                proof {
                    assert(out@ + replaced(s@.skip(i + 1), pat@, rep@) == replaced(
                        s@,
                        pat@,
                        rep@,
                    ));
                }
                i += 1;
            },
        }
    }
    proof {
        assert(s@.skip(s@.len() as int).len() == 0);
        assert(replaced(s@.skip(s@.len() as int), pat@, rep@) == s@.skip(s@.len() as int));
        assert(out@ + s@.skip(s@.len() as int) =~= out@);
    }
    out
}

/// The web link a notification's action opens.
pub fn rewrite_web_url(url: &Vec<u8>) -> (r: Vec<u8>)
    ensures
        r@ == web_url_of(url@),
{
    let p_api: Vec<u8> = vec![97u8, 112, 105, 46];
    let p_repos: Vec<u8> = vec![114u8, 101, 112, 111, 115, 47];
    let p_pulls: Vec<u8> = vec![47u8, 112, 117, 108, 108, 115, 47];
    let r_pull: Vec<u8> = vec![47u8, 112, 117, 108, 108, 47];
    let empty: Vec<u8> = Vec::new();
    proof {
        assert(p_api@ =~= pat_api());
        assert(p_repos@ =~= pat_repos());
        assert(p_pulls@ =~= pat_pulls());
        assert(r_pull@ =~= rep_pull());
        assert(empty@ =~= Seq::<u8>::empty());
    }
    let step1 = replace_all(url, &p_api, &empty);
    let step2 = replace_all(&step1, &p_repos, &empty);
    replace_all(&step2, &p_pulls, &r_pull)
}

/// Everything the caller needs to show one notification: the summary
/// line, the body, and the web link its action opens.
pub struct Presentation {
    pub summary: Vec<u8>,
    pub body: Vec<u8>,
    pub url: Vec<u8>,
}

/// Lay out one notification for display.
pub fn plan_presentation(n: &Notification) -> (r: Presentation)
    ensures
        r.summary@ == summary_of(n@.subject.subject_type, n@.repository.name),
        r.body@ == n@.subject.title,
        r.url@ == web_url_of(n@.subject.url),
{
    let mut summary: Vec<u8> = Vec::new();
    push_bytes(&mut summary, &n.subject.subject_type);
    let dash: Vec<u8> = vec![32u8, 45, 32];
    proof {
        assert(dash@ =~= lit_dash());
    }
    push_bytes(&mut summary, &dash);
    push_bytes(&mut summary, &n.repository.name);
    proof {
        assert(summary@ =~= summary_of(n@.subject.subject_type, n@.repository.name));
    }
    Presentation {
        summary,
        body: n.subject.title.clone(),
        url: rewrite_web_url(&n.subject.url),
    }
}

} // verus!
