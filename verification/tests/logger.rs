use astral_watch::alert::Alert;
use astral_watch::decode::{Pin, Reading};
use astral_watch::logger::{
    backup_name, field_text, header, sample_row, unreachable_row, CsvLogger, FileStep,
};

fn sample() -> Reading {
    Reading {
        pins: [Pin {
            millivolts: 12_000,
            milliamps: 8_000,
        }; 6],
    }
}

/// A log and its backups, in memory.
struct Disk {
    live: Option<String>,
    backups: Vec<Option<String>>,
}

impl Disk {
    fn apply(&mut self, step: FileStep) {
        match step {
            FileStep::Remove(i) => self.backups[i as usize] = None,
            FileStep::Shift(i) => {
                if let Some(f) = self.backups[i as usize].take() {
                    self.backups[i as usize + 1] = Some(f);
                }
            }
            FileStep::Retire => self.backups[1] = self.live.take(),
            FileStep::Discard => self.live = None,
        }
    }
}

fn run(max_bytes: u64, keep: u32, rows: usize) -> Disk {
    let (mut log, first) = CsvLogger::open(None, max_bytes, keep);
    let mut disk = Disk {
        live: first,
        backups: vec![None; 8],
    };
    for _ in 0..rows {
        let row = log.log("2026-01-01T00:00:00", &sample(), &vec![]);
        let live = disk.live.as_mut().unwrap();
        live.push_str(&row);
        if log.wrote() && log.outgrown(disk.live.as_ref().unwrap().len() as u64) {
            let mut k = 0;
            while let Some(step) = log.rotate(k) {
                disk.apply(step);
                k += 1;
            }
            disk.live = Some(header());
        }
    }
    disk
}

#[test]
fn writes_header_and_rotates() {
    // tiny cap so it rotates quickly
    let disk = run(200, 3, 200);
    assert!(disk.live.is_some(), "live log exists");
    assert!(disk.backups[1].is_some(), "a rotation happened");
    assert!(
        disk.live.unwrap().starts_with("timestamp,"),
        "rotated file keeps a header"
    );
    assert!(disk.backups[3].is_some() && disk.backups[4].is_none());
}

#[test]
fn keeping_none_leaves_no_backup() {
    let disk = run(200, 0, 200);
    assert!(disk.live.is_some());
    assert!(disk.backups.iter().all(|b| b.is_none()));
}

#[test]
fn rotation_leaves_files_beyond_its_backups_alone() {
    let (log, _) = CsvLogger::open(None, 1, 2);
    let named = |s: &str| Some(s.to_string());
    let mut disk = Disk {
        live: named("live"),
        backups: vec![None, named("one"), named("two"), named("three"), None],
    };
    let mut k = 0;
    while let Some(step) = log.rotate(k) {
        disk.apply(step);
        k += 1;
    }
    assert_eq!(disk.live, None);
    assert_eq!(
        disk.backups,
        vec![None, named("live"), named("one"), named("three"), None]
    );
}

#[test]
fn zero_size_disables_rotation() {
    let disk = run(0, 3, 200);
    assert!(disk.backups[1].is_none());
    assert_eq!(disk.live.unwrap().lines().count(), 201);
}

#[test]
fn header_goes_to_any_empty_file() {
    assert!(CsvLogger::open(None, 1, 1).1.is_some());
    assert!(CsvLogger::open(Some(0), 1, 1).1.is_some());
    assert!(CsvLogger::open(Some(5), 1, 1).1.is_none());
    assert_eq!(
        header(),
        "timestamp,p1_V,p1_A,p2_V,p2_A,p3_V,p3_A,p4_V,p4_A,p5_V,p5_A,p6_V,p6_A,total_A,total_W,balance,alerts\n"
    );
}

#[test]
fn rows_are_exact() {
    let mut r = sample();
    r.pins[5].milliamps = 12_345;
    assert_eq!(
        sample_row(
            "T",
            &r,
            &vec![
                Alert::Overload(vec![6]),
                Alert::Imbalance(r.balance().unwrap())
            ]
        ),
        "T,12.000,8.000,12.000,8.000,12.000,8.000,12.000,8.000,12.000,8.000,12.000,12.345,52.345,628,1.543,OVERLOAD pins 6 >9.2A;IMBALANCE hi/lo=1.54\n"
    );
    assert_eq!(
        unreachable_row("T", "gone"),
        "T,,,,,,,,,,,,,,,,gone\n"
    );
}

#[test]
fn fields_are_quoted_where_they_have_to_be() {
    assert_eq!(field_text("plain text"), "plain text");
    assert_eq!(field_text("a,b"), "\"a,b\"");
    assert_eq!(field_text("say \"hi\""), "\"say \"\"hi\"\"\"");
    assert_eq!(field_text("two\nlines"), "\"two\nlines\"");
    assert_eq!(
        unreachable_row("T", "read failed: a, b"),
        "T,,,,,,,,,,,,,,,,\"read failed: a, b\"\n"
    );
}

#[test]
fn columns_line_up_with_the_header() {
    let n = header().matches(',').count();
    assert_eq!(n, 16);
    assert_eq!(
        sample_row("T", &sample(), &vec![]).matches(',').count(),
        n
    );
    assert_eq!(unreachable_row("T", "x").matches(',').count(), n);
}

#[test]
fn backups_are_numbered() {
    assert_eq!(backup_name("t.csv", 1), "t.csv.1");
}
