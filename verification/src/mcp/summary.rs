//! Helpers of the automatic work summary: which recent files to mention,
//! the prompt, and how the model's answer and the API key are read.

use vstd::prelude::*;

use crate::text::{lines, lines_spec, string_seq_views, trim, trim_spec};

verus! {

/// The largest number of recent files that the prompt names.
pub const MAX_RECENT_FILES: usize = 10;

/// `s` with each run of equal consecutive entries reduced to its first.
pub open spec fn dedup_spec(s: Seq<Seq<char>>) -> Seq<Seq<char>>
    decreases s.len(),
{
    if s.len() == 0 {
        s
    } else {
        let d = dedup_spec(s.drop_last());
        if s.len() >= 2 && s.last() == s[s.len() - 2] {
            d
        } else {
            d.push(s.last())
        }
    }
}

/// The entries of `s` joined by `sep`.
pub open spec fn join_spec(s: Seq<Seq<char>>, sep: Seq<char>) -> Seq<char>
    decreases s.len(),
{
    if s.len() == 0 {
        Seq::empty()
    } else if s.len() == 1 {
        s[0]
    } else {
        join_spec(s.drop_last(), sep) + sep + s.last()
    }
}

/// The recent-files line of the prompt: the non-empty lines of the diff
/// listing, then of the log listing, with consecutive repeats dropped, the
/// first ten of them, joined by ", "; nothing when no line is left.
pub open spec fn recent_files_spec(diff: Seq<char>, log: Seq<char>) -> Option<Seq<char>> {
    let all = (lines_spec(diff) + lines_spec(log)).filter(|l: Seq<char>| l.len() > 0);
    let d = dedup_spec(all);
    let kept = if d.len() > 10 {
        d.subrange(0, 10)
    } else {
        d
    };
    if kept.len() == 0 {
        None
    } else {
        Some(join_spec(kept, ", "@))
    }
}

/// Appends the non-empty entries of `src` to `dst`.
fn push_nonempty(dst: &mut Vec<String>, src: Vec<String>)
    ensures
        string_seq_views(final(dst)@) == string_seq_views(old(dst)@) + string_seq_views(src@).filter(
            |l: Seq<char>| l.len() > 0,
        ),
{
    let ghost sv = string_seq_views(src@);
    let ghost pred = |l: Seq<char>| l.len() > 0;
    let ghost start = string_seq_views(dst@);
    let n = src.len();
    let mut i: usize = 0;
    assert(sv.take(0).filter(pred) =~= Seq::<Seq<char>>::empty()) by {
        reveal(Seq::filter);
    }
    assert(start + sv.take(0).filter(pred) =~= start);
    while i < n
        invariant
            i <= n,
            n == src@.len(),
            sv == string_seq_views(src@),
            pred == (|l: Seq<char>| l.len() > 0),
            string_seq_views(dst@) == start + sv.take(i as int).filter(pred),
        decreases n - i,
    {
        proof {
            sv.take(i as int).lemma_filter_push(sv[i as int], pred);
            assert(sv.take(i as int + 1) =~= sv.take(i as int).push(sv[i as int]));
        }
        if src[i].as_str().unicode_len() > 0 {
            let ghost before = dst@;
            dst.push(src[i].clone());
            assert(string_seq_views(dst@) =~= string_seq_views(before).push(sv[i as int]));
        }
        i = i + 1;
    }
    assert(sv.take(n as int) =~= sv);
}

/// `s` with each run of equal consecutive entries reduced to its first.
fn dedup(s: &Vec<String>) -> (r: Vec<String>)
    ensures
        string_seq_views(r@) == dedup_spec(string_seq_views(s@)),
{
    let ghost sv = string_seq_views(s@);
    let mut out: Vec<String> = Vec::new();
    let n = s.len();
    let mut i: usize = 0;
    assert(sv.take(0) =~= Seq::<Seq<char>>::empty());
    assert(string_seq_views(out@) =~= dedup_spec(sv.take(0)));
    while i < n
        invariant
            i <= n,
            n == s@.len(),
            sv == string_seq_views(s@),
            string_seq_views(out@) == dedup_spec(sv.take(i as int)),
        decreases n - i,
    {
        let ghost t = sv.take(i as int + 1);
        assert(t.drop_last() =~= sv.take(i as int));
        let repeat = i >= 1 && s[i] == s[i - 1];
        if i >= 1 {
            assert(t[t.len() - 2] == sv[i - 1]);
        }
        if !repeat {
            let ghost before = out@;
            out.push(s[i].clone());
            assert(string_seq_views(out@) =~= string_seq_views(before).push(sv[i as int]));
        }
        i = i + 1;
    }
    assert(sv.take(n as int) =~= sv);
    out
}

/// The entries of `s` joined by `sep`.
fn join(s: &Vec<String>, sep: &str) -> (r: String)
    ensures
        r@ == join_spec(string_seq_views(s@), sep@),
{
    let ghost sv = string_seq_views(s@);
    let mut out = String::new();
    let n = s.len();
    let mut i: usize = 0;
    assert(sv.take(0) =~= Seq::<Seq<char>>::empty());
    while i < n
        invariant
            i <= n,
            n == s@.len(),
            sv == string_seq_views(s@),
            out@ == join_spec(sv.take(i as int), sep@),
        decreases n - i,
    {
        let ghost t = sv.take(i as int + 1);
        assert(t.drop_last() =~= sv.take(i as int));
        if i > 0 {
            out.append(sep);
        } else {
            assert(out@ =~= Seq::<char>::empty());
        }
        out.append(s[i].as_str());
        if i == 0 {
            assert(out@ =~= t[0]);
        }
        i = i + 1;
    }
    assert(sv.take(n as int) =~= sv);
    out
}

/// The recent-files line of the prompt (see `recent_files_spec`), from the
/// listings of changed files (`git diff --name-only HEAD`) and of files in
/// recent commits (`git log --name-only --format= -5`).
pub fn recent_files(diff: &str, log: &str) -> (r: Option<String>)
    ensures
        match r {
            Some(s) => recent_files_spec(diff@, log@) == Some(s@),
            None => recent_files_spec(diff@, log@) is None,
        },
{
    let a = lines(diff);
    let b = lines(log);
    let ghost av = string_seq_views(a@);
    let ghost bv = string_seq_views(b@);
    let ghost pred = |l: Seq<char>| l.len() > 0;
    let mut all: Vec<String> = Vec::new();
    assert(string_seq_views(all@) =~= Seq::<Seq<char>>::empty());
    push_nonempty(&mut all, a);
    push_nonempty(&mut all, b);
    proof {
        Seq::filter_distributes_over_add(av, bv, pred);
        assert(string_seq_views(all@) =~= (av + bv).filter(pred));
    }
    let mut files = dedup(&all);
    let ghost d = string_seq_views(files@);
    files.truncate(MAX_RECENT_FILES);
    let ghost kept = if d.len() > 10 {
        d.subrange(0, 10)
    } else {
        d
    };
    assert(string_seq_views(files@) =~= kept);
    assert(d == dedup_spec((lines_spec(diff@) + lines_spec(log@)).filter(pred)));
    if files.len() == 0 {
        None
    } else {
        Some(join(&files, ", "))
    }
}

/// The prompt that asks for the summary.
pub fn summary_prompt(cwd: &str, branch: &str, recent_files: &str) -> (r: String)
    ensures
        r@ == "Summarize what this developer is working on in 1-2 sentences based on:\nWorking directory: "@
            + cwd@ + "\nGit branch: "@ + branch@ + "\nRecent files: "@ + recent_files@
            + "\nBe concise and specific."@,
{
    let mut p = String::from_str(
        "Summarize what this developer is working on in 1-2 sentences based on:\nWorking directory: ",
    );
    p.append(cwd);
    p.append("\nGit branch: ");
    p.append(branch);
    p.append("\nRecent files: ");
    p.append(recent_files);
    p.append("\nBe concise and specific.");
    p
}

/// The API key to use: none when the variable is unset or empty.
pub fn usable_api_key(var: Option<String>) -> (r: Option<String>)
    ensures
        match var {
            Some(k) => if k@.len() == 0 {
                r is None
            } else {
                r == Some(k)
            },
            None => r is None,
        },
{
    match var {
        Some(k) => {
            if k.as_str().unicode_len() == 0 {
                None
            } else {
                Some(k)
            }
        },
        None => None,
    }
}

/// The summary read from the model's answer: its text, trimmed.
pub fn summary_from_content(content: Option<&str>) -> (r: Option<String>)
    ensures
        match content {
            Some(c) => r matches Some(s) && s@ == trim_spec(c@),
            None => r is None,
        },
{
    match content {
        Some(c) => Some(String::from_str(trim(c))),
        None => None,
    }
}

} // verus!
