use koko::batch::{batch_jobs, job_file_name, plan_lines, BatchJob};

fn job(index: usize, text: &str, path: &str) -> BatchJob {
    BatchJob { index, text: text.to_string(), path: path.to_string() }
}

#[test]
fn blank_line_keeps_its_number() {
    let jobs = batch_jobs("a\n\nb", "P");
    assert_eq!(jobs, vec![job(0, "a", "P_0.wav"), job(2, "b", "P_2.wav")]);
}

#[test]
fn lines_are_trimmed() {
    let jobs = batch_jobs("  hello world \n\t\n x", "out");
    assert_eq!(jobs, vec![job(0, "hello world", "out_0.wav"), job(2, "x", "out_2.wav")]);
}

#[test]
fn crlf_lines() {
    let jobs = batch_jobs("a\r\nb\r\n", "P");
    assert_eq!(jobs, vec![job(0, "a", "P_0.wav"), job(1, "b", "P_1.wav")]);
}

#[test]
fn empty_content_has_no_jobs() {
    assert_eq!(batch_jobs("", "P"), vec![]);
    assert_eq!(batch_jobs("\n \n", "P"), vec![]);
}

#[test]
fn numbers_past_nine() {
    let content = "a\n".repeat(12);
    let jobs = batch_jobs(&content, "tmp/output.wav");
    assert_eq!(jobs.len(), 12);
    assert_eq!(jobs[11], job(11, "a", "tmp/output.wav_11.wav"));
}

#[test]
fn file_names() {
    assert_eq!(job_file_name("P", 0), "P_0.wav");
    assert_eq!(job_file_name("x", 105), "x_105.wav");
    assert_eq!(job_file_name("", usize::MAX), format!("_{}.wav", usize::MAX));
}

#[test]
fn plan_of_trimmed_lines() {
    let lines = vec!["a".to_string(), "".to_string(), "b".to_string()];
    assert_eq!(plan_lines(&lines, "P"), vec![job(0, "a", "P_0.wav"), job(2, "b", "P_2.wav")]);
}
