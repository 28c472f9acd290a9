//! A log that never outgrows its allowance.

use copybot_hot::capped::{
    after_write, plan_eviction, resume_at, segment_name, segment_number, sorted_segments, status,
    total_bytes, SEGMENT_BYTES,
};
use copybot_hot::json::Json;

/// A log over files held in memory.
struct CappedLog {
    name: String,
    cap: u64,
    seg: u64,
    seg_bytes: u64,
    evicted_segments: u64,
}

fn sizes(dir: &[(String, String)], name: &str) -> Vec<(u64, u64)> {
    dir.iter()
        .filter_map(|(f, body)| segment_number(f, name).map(|n| (n, body.len() as u64)))
        .collect()
}

fn segments(dir: &[(String, String)], name: &str) -> Vec<(u64, String)> {
    sorted_segments(&sizes(dir, name))
        .iter()
        .map(|(n, _)| {
            let f = segment_name(name, *n);
            (*n, dir.iter().find(|e| e.0 == f).unwrap().1.clone())
        })
        .collect()
}

impl CappedLog {
    fn open(dir: &mut Vec<(String, String)>, name: &str, cap: u64) -> CappedLog {
        let numbers: Vec<u64> = sizes(dir, name).iter().map(|s| s.0).collect();
        let seg = resume_at(&numbers);
        let mut l = CappedLog { name: name.into(), cap, seg, seg_bytes: 0, evicted_segments: 0 };
        l.seg_bytes = l.active(dir).len() as u64;
        l
    }

    fn active<'a>(&self, dir: &'a mut Vec<(String, String)>) -> &'a mut String {
        let f = segment_name(&self.name, self.seg);
        if !dir.iter().any(|e| e.0 == f) {
            dir.push((f.clone(), String::new()));
        }
        &mut dir.iter_mut().find(|e| e.0 == f).unwrap().1
    }

    fn write_line(&mut self, dir: &mut Vec<(String, String)>, line: &str) {
        let body = self.active(dir);
        body.push_str(line);
        body.push('\n');
        let (bytes, full) = after_write(self.seg_bytes, line.len() as u64);
        self.seg_bytes = bytes;
        if full {
            self.seg += 1;
            self.seg_bytes = 0;
            self.active(dir);
            self.evict(dir);
        }
    }

    fn evict(&mut self, dir: &mut Vec<(String, String)>) {
        for n in plan_eviction(&sizes(dir, &self.name), self.seg, self.cap) {
            let f = segment_name(&self.name, n);
            dir.retain(|e| e.0 != f);
            self.evicted_segments += 1;
        }
    }

    fn status(&self, dir: &[(String, String)]) -> Json {
        let total = total_bytes(&sizes(dir, &self.name));
        status(total, self.cap, self.seg, self.evicted_segments, 0)
    }
}

#[test]
fn writes_and_reads_back() {
    let mut d: Vec<(String, String)> = Vec::new();
    let mut l = CappedLog::open(&mut d, "ev", 1 << 20);
    l.write_line(&mut d, "{\"a\":1}");
    l.write_line(&mut d, "{\"a\":2}");
    let segs = segments(&d, "ev");
    let body = &segs[0].1;
    assert_eq!(body.lines().count(), 2);
}
#[test]
fn NEWEST_evicts_OLDEST_once_the_cap_is_passed() {
    let mut d: Vec<(String, String)> = Vec::new();
    let mut l = CappedLog::open(&mut d, "ev", 40);
    for i in 0..6 {
        l.seg_bytes = SEGMENT_BYTES;
        l.write_line(&mut d, &format!("{{\"i\":{i}}}"));
    }
    let segs = segments(&d, "ev");
    assert!(l.evicted_segments > 0, "nothing was evicted");
    let nums: Vec<u64> = segs.iter().map(|(n, _)| *n).collect();
    let hi = *nums.iter().max().unwrap();
    assert!(nums.contains(& hi), "the active segment must survive");
    assert!(
        ! nums.contains(& 0) || nums.len() == 1, "segment 0 should be gone: {nums:?}"
    );
}
#[test]
fn the_segment_being_written_is_never_evicted() {
    let mut d: Vec<(String, String)> = Vec::new();
    let mut l = CappedLog::open(&mut d, "ev", 1);
    l.write_line(&mut d, "{\"keep\":true}");
    l.evict(&mut d);
    let segs = segments(&d, "ev");
    assert_eq!(segs.len(), 1, "evicted the segment we are writing to");
    assert!(segs[0].1.contains("keep"));
}
#[test]
fn a_restart_resumes_instead_of_reusing_a_number() {
    let mut d: Vec<(String, String)> = Vec::new();
    {
        let mut l = CappedLog::open(&mut d, "ev", 1 << 20);
        l.seg_bytes = SEGMENT_BYTES;
        l.write_line(&mut d, "{\"first\":1}");
    }
    let l2 = CappedLog::open(&mut d, "ev", 1 << 20);
    assert_eq!(l2.seg, 1, "must continue at the highest segment, not restart at 0");
}
#[test]
fn status_reports_usage_against_the_cap() {
    let mut d: Vec<(String, String)> = Vec::new();
    let mut l = CappedLog::open(&mut d, "ev", 1000);
    for _ in 0..10 {
        l.write_line(&mut d, "0123456789");
    }
    let s = l.status(&d);
    assert_eq!(s.unsigned_at("cap"), Some(1000));
    assert!(s.unsigned_at("bytes").unwrap() >= 110);
    assert_eq!(s.unsigned_at("write_errors"), Some(0));
}
#[test]
fn segments_sort_numerically_not_lexically() {
    let mut d: Vec<(String, String)> = Vec::new();
    let mut l = CappedLog::open(&mut d, "ev", 1 << 30);
    for _ in 0..12 {
        l.seg_bytes = SEGMENT_BYTES;
        l.write_line(&mut d, "x");
    }
    let nums: Vec<u64> = segments(&d, "ev")
        .iter()
        .map(|(n, _)| *n)
        .collect();
    let mut sorted = nums.clone();
    sorted.sort();
    assert_eq!(nums, sorted);
    assert!(nums.contains(& 10) && nums.contains(& 11));
}
