use rename_seq::{
    max_size_hint_digits, zip_single_side_scans, DynamicRenameContent, Order, RenameContext,
    RenameSpec, RenameSpecParseErrorKind, Sequencer, SortBy, Traversal, Visitor, ZigZag,
};
use std::ops::ControlFlow;

fn render(spec: &RenameSpec, idx: usize, width: usize) -> String {
    let mut out = String::new();
    spec.write(&RenameContext { idx, max_size_hint_digits: width }, &mut out);
    out
}

struct Recorder {
    seen: Vec<(usize, String, String)>,
    stop_at: Option<usize>,
}

impl Visitor<String> for Recorder {
    type Error = usize;

    fn visit(&mut self, idx: usize, from: &String, to: String) -> ControlFlow<usize> {
        self.seen.push((idx, from.clone(), to));
        if self.stop_at == Some(idx) {
            ControlFlow::Break(idx)
        } else {
            ControlFlow::Continue(())
        }
    }
}

fn run(files: &[String], order: Order, pattern: &str, stop_at: Option<usize>) -> (Result<(), usize>, Vec<(usize, String, String)>) {
    let spec = RenameSpec::new(pattern).unwrap();
    let mut rec = Recorder { seen: Vec::new(), stop_at };
    let r = zip_single_side_scans(Traversal::new(files, order), spec, &mut rec);
    (r, rec.seen)
}

fn names(v: &[&str]) -> Vec<String> {
    v.iter().map(|s| s.to_string()).collect()
}

#[test]
fn no_replacement() {
    let spec = RenameSpec::new("asdf.txt").unwrap();
    assert!(!spec.has_dynamic_content());
    for idx in [0usize, 1, 7, 12345] {
        assert_eq!(render(&spec, idx, 3), "asdf.txt");
    }
}

#[test]
fn correct_padding() {
    let spec = RenameSpec::new("photo-{padded_idx}.jpg").unwrap();
    assert!(spec.has_dynamic_content());
    assert_eq!(render(&spec, 7, 3), "photo-007.jpg");
    assert_eq!(render(&spec, 42, 3), "photo-042.jpg");
    assert_eq!(render(&spec, 999, 3), "photo-999.jpg");
    assert_eq!(render(&spec, 0, 1), "photo-0.jpg");
}

#[test]
fn padding_never_truncates() {
    let spec = RenameSpec::new("{padded_idx}").unwrap();
    assert_eq!(render(&spec, 12345, 2), "12345");
    assert_eq!(render(&spec, 12345, 5), "12345");
    assert_eq!(render(&spec, 12345, 7), "0012345");
    assert_eq!(render(&spec, usize::MAX, 1), usize::MAX.to_string());
}

#[test]
fn prefix_and_suffix_kept_verbatim() {
    let spec = RenameSpec::new("été_{padded_idx}}x{").unwrap();
    assert_eq!(render(&spec, 3, 2), "été_03}x{");
}

#[test]
fn padding_width_from_size_hint() {
    assert_eq!(max_size_hint_digits((0, Some(0))), 1);
    assert_eq!(max_size_hint_digits((9, Some(9))), 1);
    assert_eq!(max_size_hint_digits((10, Some(10))), 2);
    assert_eq!(max_size_hint_digits((999, Some(999))), 3);
    assert_eq!(max_size_hint_digits((1000, Some(1000))), 4);
    assert_eq!(max_size_hint_digits((3, Some(1000))), 4);
    assert_eq!(max_size_hint_digits((1000, None)), 4);
    assert_eq!(max_size_hint_digits((0, None)), 1);
    assert_eq!(max_size_hint_digits((0, Some(usize::MAX))), usize::MAX.to_string().len());
}

#[test]
fn malformed_pattern_offset() {
    let err = RenameSpec::new("img_{bad}").err().unwrap();
    assert_eq!(err.idx, 5);
    assert_eq!(err.source, RenameSpecParseErrorKind::UnexpectedAfterOpenCurlyBrace);
    let err = RenameSpec::new("é{padded_id").err().unwrap();
    assert_eq!(err.idx, 3);
    let err = RenameSpec::new("{").err().unwrap();
    assert_eq!(err.idx, 1);
}

#[test]
fn sequential_keeps_order() {
    let files = names(&["c", "a", "b"]);
    let (r, seen) = run(&files, Order::Sequential, "n{padded_idx}", None);
    assert_eq!(r, Ok(()));
    assert_eq!(
        seen,
        vec![
            (0, "c".to_string(), "n0".to_string()),
            (1, "a".to_string(), "n1".to_string()),
            (2, "b".to_string(), "n2".to_string()),
        ]
    );
}

#[test]
fn zigzag_alternates_ends() {
    let files = names(&["a", "b", "c", "d", "e"]);
    let (r, seen) = run(&files, Order::SingleSidedScans, "{padded_idx}", None);
    assert_eq!(r, Ok(()));
    let got: Vec<(usize, String)> = seen.into_iter().map(|(i, f, _)| (i, f)).collect();
    assert_eq!(got, vec![
        (0, "a".to_string()),
        (1, "e".to_string()),
        (2, "b".to_string()),
        (3, "d".to_string()),
        (4, "c".to_string()),
    ]);
}

#[test]
fn zigzag_trivial_inputs() {
    let empty: Vec<String> = Vec::new();
    let mut z = ZigZag::new(&empty[..]);
    assert_eq!(z.size_hint(), (0, Some(0)));
    assert_eq!(z.next(), None);
    let one = names(&["only"]);
    let mut z = ZigZag::new(&one[..]);
    assert_eq!(z.size_hint(), (1, Some(1)));
    assert_eq!(z.next(), Some(&one[0]));
    assert_eq!(z.next(), None);
    let four = [1u32, 2, 3, 4];
    let mut z = ZigZag::new(&four[..]);
    let mut out = Vec::new();
    while let Some(x) = z.next() {
        out.push(*x);
    }
    assert_eq!(out, vec![1, 4, 2, 3]);
}

#[test]
fn abort_stops_before_fourth_item() {
    let files = names(&["a", "b", "c", "d", "e"]);
    let (r, seen) = run(&files, Order::Sequential, "x{padded_idx}", Some(2));
    assert_eq!(r, Err(2));
    assert_eq!(seen.len(), 3);
    assert_eq!(seen[2].1, "c");
}

#[test]
fn end_to_end_photos() {
    let files = names(&["p0.jpg", "p1.jpg", "p2.jpg"]);
    let (r, seen) = run(&files, Order::Sequential, "photo-{padded_idx}.jpg", None);
    assert_eq!(r, Ok(()));
    let to: Vec<String> = seen.iter().map(|t| t.2.clone()).collect();
    assert_eq!(to, vec!["photo-0.jpg", "photo-1.jpg", "photo-2.jpg"]);
    let from: Vec<String> = seen.iter().map(|t| t.1.clone()).collect();
    assert_eq!(from, files);
}

#[test]
fn padding_width_follows_run_length() {
    let files: Vec<String> = (0..12).map(|i| format!("f{i}")).collect();
    let (_, seen) = run(&files, Order::Sequential, "{padded_idx}.txt", None);
    assert_eq!(seen[0].2, "00.txt");
    assert_eq!(seen[11].2, "11.txt");
}

#[test]
fn sequencer_yields_tasks() {
    let files = names(&["a", "b"]);
    let spec = RenameSpec::new("{padded_idx}").unwrap();
    let mut s = Sequencer::new(Traversal::new(&files[..], Order::SingleSidedScans), spec);
    let t = s.next_task().unwrap();
    assert_eq!((t.idx, t.from.as_str(), t.to.as_str()), (0, "a", "0"));
    let t = s.next_task().unwrap();
    assert_eq!((t.idx, t.from.as_str(), t.to.as_str()), (1, "b", "1"));
    assert!(s.next_task().is_none());
}

#[test]
fn sort_by_defaults_to_lexicographical() {
    assert_eq!(SortBy::default(), SortBy::Lexicographical);
    assert_eq!(DynamicRenameContent::PaddedInteger, DynamicRenameContent::PaddedInteger);
}

#[test]
fn cloned_spec_renders_the_same() {
    let spec = RenameSpec::new("a{padded_idx}b").unwrap();
    let copy = spec.clone();
    assert!(copy.has_dynamic_content());
    assert_eq!(render(&copy, 4, 2), "a04b");
    let lit = RenameSpec::new("plain").unwrap().clone();
    assert!(!lit.has_dynamic_content());
    assert_eq!(render(&lit, 4, 2), "plain");
}

fn run_names(count: usize) -> Vec<String> {
    let files: Vec<String> = (0..count).map(|i| format!("f{i}")).collect();
    let (r, seen) = run(&files, Order::Sequential, "{padded_idx}", None);
    assert_eq!(r, Ok(()));
    assert_eq!(seen.len(), count);
    seen.into_iter().map(|t| t.2).collect()
}

#[test]
fn run_width_nine_items() {
    let to = run_names(9);
    assert_eq!(to, vec!["0", "1", "2", "3", "4", "5", "6", "7", "8"]);
}

#[test]
fn run_width_ten_items() {
    let to = run_names(10);
    assert_eq!(to, vec!["00", "01", "02", "03", "04", "05", "06", "07", "08", "09"]);
}

#[test]
fn run_width_large_runs() {
    let to = run_names(999);
    assert_eq!((to[0].as_str(), to[10].as_str(), to[998].as_str()), ("000", "010", "998"));
    let to = run_names(1000);
    assert_eq!((to[0].as_str(), to[999].as_str()), ("0000", "0999"));
}

#[test]
fn empty_run_visits_nothing() {
    let files: Vec<String> = Vec::new();
    let (r, seen) = run(&files, Order::SingleSidedScans, "x{padded_idx}", Some(0));
    assert_eq!(r, Ok(()));
    assert!(seen.is_empty());
}

#[test]
fn abort_on_first_item() {
    let files = names(&["a", "b"]);
    let (r, seen) = run(&files, Order::SingleSidedScans, "{padded_idx}", Some(0));
    assert_eq!(r, Err(0));
    assert_eq!(seen, vec![(0, "a".to_string(), "0".to_string())]);
}
