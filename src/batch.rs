//! Batch planning: one output file per non-blank line of an input text.
use vstd::prelude::*;
use crate::text::{decimal, pieces, push_decimal, split_bounds, split_on, trim_text, trimmed};

verus! {

/// One unit of a batch: the zero-based number of its line among all lines,
/// the trimmed text of that line, and the file it is written to.
#[derive(Clone, Debug, PartialEq, Eq)]
pub struct BatchJob {
    pub index: usize,
    pub text: String,
    pub path: String,
}

impl View for BatchJob {
    type V = (int, Seq<char>, Seq<char>);

    open spec fn view(&self) -> (int, Seq<char>, Seq<char>) {
        (self.index as int, self.text@, self.path@)
    }
}

/// The jobs of a batch as plain values.
pub open spec fn jobs_view(v: Seq<BatchJob>) -> Seq<(int, Seq<char>, Seq<char>)> {
    v.map_values(|j: BatchJob| j@)
}

/// The extension `.wav`.
pub open spec fn wav_suffix() -> Seq<char> {
    seq!['.', 'w', 'a', 'v']
}

/// The file of line `i`: `{prefix}_{i}.wav`.
pub open spec fn job_path(prefix: Seq<char>, i: int) -> Seq<char> {
    prefix.push('_') + decimal(i as nat) + wav_suffix()
}

/// The jobs for the given trimmed lines, in line order. An empty line gives
/// no job but still counts in the numbering.
pub open spec fn plan_spec(lines: Seq<Seq<char>>, prefix: Seq<char>) -> Seq<(int, Seq<char>, Seq<char>)>
    decreases lines.len(),
{
    if lines.len() == 0 {
        Seq::empty()
    } else {
        let prev = plan_spec(lines.drop_last(), prefix);
        let i = lines.len() - 1;
        let t = lines.last();
        if t.len() == 0 {
            prev
        } else {
            prev.push((i, t, job_path(prefix, i)))
        }
    }
}

/// The jobs for a text whose lines are separated by `\n`.
pub open spec fn batch_spec(content: Seq<char>, prefix: Seq<char>) -> Seq<(int, Seq<char>, Seq<char>)> {
    plan_spec(split_on(content, '\n').map_values(|l: Seq<char>| trimmed(l)), prefix)
}

/// Builds `{prefix}_{i}.wav`.
pub fn job_file_name(prefix: &str, i: usize) -> (r: String)
    ensures
        r@ == job_path(prefix@, i as int),
{
    proof {
        reveal_strlit("_");
        reveal_strlit(".wav");
    }
    let mut path = String::from_str(prefix);
    path.append("_");
    push_decimal(&mut path, i);
    path.append(".wav");
    assert(path@ =~= job_path(prefix@, i as int));
    path
}

/// Plans a batch over lines that are already trimmed: one job for each
/// non-empty line, numbered by its position among all lines and written to
/// `{prefix}_{index}.wav`.
pub fn plan_lines(lines: &Vec<String>, prefix: &str) -> (r: Vec<BatchJob>)
    ensures
        jobs_view(r@) == plan_spec(lines@.map_values(|l: String| l@), prefix@),
{
    let ghost ls = lines@.map_values(|l: String| l@);
    let mut jobs: Vec<BatchJob> = Vec::new();
    let mut i: usize = 0;
    proof {
        assert(ls.take(0) =~= Seq::<Seq<char>>::empty());
        assert(jobs_view(jobs@) =~= Seq::<(int, Seq<char>, Seq<char>)>::empty());
    }
    while i < lines.len()
        invariant
            ls == lines@.map_values(|l: String| l@),
            i <= lines@.len(),
            jobs_view(jobs@) == plan_spec(ls.take(i as int), prefix@),
        decreases lines@.len() - i,
    {
        let line = &lines[i];
        proof {
            assert(ls.take(i + 1).drop_last() =~= ls.take(i as int));
            assert(ls.take(i + 1).last() == line@);
        }
        if !line.as_str().is_empty() {
            let path = job_file_name(prefix, i);
            let job = BatchJob { index: i, text: line.clone(), path };
            let ghost prev = jobs@;
            let ghost jv = job@;
            jobs.push(job);
            proof {
                assert(jobs_view(jobs@) =~= jobs_view(prev).push(jv));
            }
        }
        i = i + 1;
    }
    proof {
        assert(ls.take(i as int) =~= ls);
    }
    jobs
}

/// Plans a batch over the lines of `content`, separated by `\n`: each line
/// is trimmed, and each one that is not blank becomes a job numbered by its
/// position among all lines.
pub fn batch_jobs(content: &str, prefix: &str) -> (r: Vec<BatchJob>)
    ensures
        jobs_view(r@) == batch_spec(content@, prefix@),
{
    let bounds = split_bounds(content, '\n');
    let ghost ls = pieces(content@, bounds@);
    let mut lines: Vec<String> = Vec::new();
    let mut i: usize = 0;
    proof {
        assert(lines@.map_values(|l: String| l@) =~= ls.take(0).map_values(|l: Seq<char>| trimmed(l)));
    }
    while i < bounds.len()
        invariant
            ls == pieces(content@, bounds@),
            ls == split_on(content@, '\n'),
            i <= bounds@.len(),
            forall|m: int|
                0 <= m < bounds@.len() ==> (#[trigger] bounds@[m]).0 <= bounds@[m].1 <= content@.len(),
            lines@.map_values(|l: String| l@) == ls.take(i as int).map_values(
                |l: Seq<char>| trimmed(l),
            ),
        decreases bounds@.len() - i,
    {
        let (a, b) = bounds[i];
        let line = content.substring_char(a, b);
        let t = String::from_str(trim_text(line));
        let ghost prev = lines@;
        let ghost tv = t@;
        lines.push(t);
        proof {
            assert(ls[i as int] == line@);
            assert(tv == trimmed(ls[i as int]));
            assert(lines@.map_values(|l: String| l@) =~= prev.map_values(|l: String| l@).push(tv));
            assert(ls.take(i + 1).map_values(|l: Seq<char>| trimmed(l)) =~= ls.take(
                i as int,
            ).map_values(|l: Seq<char>| trimmed(l)).push(trimmed(ls[i as int])));
            assert(lines@.map_values(|l: String| l@) =~= ls.take(i + 1).map_values(
                |l: Seq<char>| trimmed(l),
            ));
        }
        i = i + 1;
    }
    proof {
        assert(ls.take(i as int) =~= ls);
    }
    plan_lines(&lines, prefix)
}

} // verus!
