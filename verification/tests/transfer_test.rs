use rsqlite::buffer::InputBuffer;
use rsqlite::session::{process_line, transfers};
use rsqlite::table::file::{FileImage, FileRange};
use rsqlite::table::pager::Pager;
use rsqlite::table::row::Row;
use rsqlite::table::Table;

fn line(text: &str) -> InputBuffer {
    InputBuffer { buffer: text.to_string() }
}

fn range(offset: u64, len: usize) -> FileRange {
    FileRange { offset, len }
}

fn person(i: u32) -> Row {
    let mut row = Row::new();
    row.id = i;
    let name = format!("user{}", i);
    row.username[..name.len()].copy_from_slice(name.as_bytes());
    let mail = format!("person{}@example.com", i);
    row.email[..mail.len()].copy_from_slice(mail.as_bytes());
    row
}

fn stored(n: u32) -> Vec<u8> {
    let mut table = Table::db_open(FileImage::new(Vec::new()));
    for i in 0..n {
        table.insert(person(i)).unwrap();
    }
    table.db_close();
    table.pager.file.bytes
}

fn plan(text: &str, table: &Table) -> (Vec<FileRange>, Vec<FileRange>) {
    let plan = transfers(&line(text), table);
    (plan.reads, plan.writes)
}

/// A session that is handed the whole file at once.
fn eager(disk: Vec<u8>, lines: &[&str]) -> (Vec<u8>, Vec<u8>) {
    let mut table = Table::db_open(FileImage::new(disk));
    let mut shown = Vec::new();
    for text in lines {
        let reply = process_line(&line(text), &mut table);
        shown.extend_from_slice(&reply.output);
        if reply.exit {
            break;
        }
    }
    (shown, table.pager.file.bytes)
}

/// A session that is handed only the pieces of the file that each line
/// asks for, and gives back only the pieces that closing writes. It counts
/// the bytes handed over.
fn lazy(mut disk: Vec<u8>, lines: &[&str]) -> (Vec<u8>, Vec<u8>, usize) {
    let mut table = Table::db_open(FileImage::new(vec![0u8; disk.len()]));
    let mut shown = Vec::new();
    let mut fetched = 0;
    for text in lines {
        let plan = transfers(&line(text), &table);
        for r in plan.reads.iter() {
            let start = r.offset as usize;
            table.pager.file.write_at(r.offset, &disk[start..start + r.len]);
            fetched += r.len;
        }
        let reply = process_line(&line(text), &mut table);
        shown.extend_from_slice(&reply.output);
        if reply.exit {
            for r in plan.writes.iter() {
                let start = r.offset as usize;
                let end = start + r.len;
                if disk.len() < end {
                    disk.resize(end, 0);
                }
                disk[start..end].copy_from_slice(&table.pager.file.bytes[start..end]);
            }
            break;
        }
    }
    (shown, disk, fetched)
}

#[test]
fn read_request_names_the_page_or_the_tail() {
    let mut pager = Pager::open(FileImage::new(vec![1u8; 5000]));
    assert_eq!(pager.read_request(0), Some(range(0, 4096)));
    assert_eq!(pager.read_request(1), Some(range(4096, 904)));
    assert_eq!(pager.read_request(2), None);
    assert_eq!(pager.read_request(99), None);
    assert_eq!(pager.read_request(100), None);
    assert_eq!(pager.read_request(101), None);
    assert_eq!(pager.get_page(1), Ok(()));
    assert_eq!(pager.read_request(1), None);
    assert_eq!(pager.read_request(0), Some(range(0, 4096)));
    assert_eq!(pager.reads_below(100), vec![range(0, 4096)]);
    assert_eq!(pager.reads_below(0), vec![]);
}

#[test]
fn read_request_on_a_file_of_whole_pages() {
    let pager = Pager::open(FileImage::new(vec![1u8; 8192]));
    assert_eq!(pager.reads_below(5), vec![range(0, 4096), range(4096, 4096)]);
    assert_eq!(pager.read_request(2), None);
    let empty = Pager::open(FileImage::new(Vec::new()));
    assert_eq!(empty.reads_below(100), vec![]);
}

#[test]
fn write_request_names_the_resident_page() {
    let mut pager = Pager::open(FileImage::new(vec![1u8; 5000]));
    assert_eq!(pager.write_request(0), None);
    pager.pages[3] = vec![7; 10];
    assert_eq!(pager.write_request(3), Some(range(3 * 4096, 10)));
    assert_eq!(pager.write_request(100), None);
    assert_eq!(pager.writes_below(3), vec![]);
    assert_eq!(pager.writes_below(4), vec![range(3 * 4096, 10)]);
    assert_eq!(pager.get_page(0), Ok(()));
    assert_eq!(pager.writes_below(100), vec![range(0, 4096), range(3 * 4096, 10)]);
}

#[test]
fn a_select_reads_the_pages_that_hold_rows() {
    let mut table = Table::db_open(FileImage::new(stored(20)));
    assert_eq!(table.scan_reads(), vec![range(0, 4096), range(4096, 1746)]);
    assert_eq!(plan("select", &table), (vec![range(0, 4096), range(4096, 1746)], vec![]));
    table.row_at(3);
    assert_eq!(plan("select", &table), (vec![range(4096, 1746)], vec![]));
    table.scan();
    assert_eq!(plan("select", &table), (vec![], vec![]));
}

#[test]
fn an_insert_reads_the_page_of_the_new_row() {
    let table = Table::db_open(FileImage::new(stored(20)));
    assert_eq!(table.insert_reads(), vec![range(4096, 1746)]);
    assert_eq!(plan("insert 1 a b", &table), (vec![range(4096, 1746)], vec![]));

    let full_page = Table::db_open(FileImage::new(stored(14)));
    assert_eq!(plan("insert 1 a b", &full_page), (vec![], vec![]));

    let fresh = Table::db_open(FileImage::new(Vec::new()));
    assert_eq!(plan("insert 1 a b", &fresh), (vec![], vec![]));
}

#[test]
fn an_insert_into_a_full_table_reads_nothing() {
    let mut table = Table::db_open(FileImage::new(Vec::new()));
    for i in 0..1400 {
        table.insert(person(i)).unwrap();
    }
    assert_eq!(table.insert_reads(), vec![]);
    assert_eq!(plan("insert 1 a b", &table), (vec![], vec![]));
}

#[test]
fn closing_writes_the_resident_pages_that_hold_rows() {
    let mut table = Table::db_open(FileImage::new(stored(20)));
    assert_eq!(plan(".exit", &table), (vec![], vec![]));
    table.insert(person(20)).unwrap();
    assert_eq!(table.close_writes(), vec![range(4096, 7 * 291)]);
    assert_eq!(plan(".exit", &table), (vec![], vec![range(4096, 7 * 291)]));
    table.row_at(0);
    assert_eq!(plan(".exit", &table), (vec![], vec![range(0, 4096), range(4096, 7 * 291)]));

    let mut fresh = Table::db_open(FileImage::new(Vec::new()));
    for i in 0..15 {
        fresh.insert(person(i)).unwrap();
    }
    assert_eq!(plan(".exit", &fresh), (vec![], vec![range(0, 4074), range(4096, 291)]));
}

#[test]
fn lines_that_touch_no_row_touch_no_file() {
    let mut table = Table::db_open(FileImage::new(stored(20)));
    table.insert(person(20)).unwrap();
    for text in ["", ".foo", ".exit ", "update", "insert 1", "insert -1 a b", "insert 1 a"] {
        assert_eq!(plan(text, &table), (vec![], vec![]), "{}", text);
    }
}

#[test]
fn transfers_leave_the_table_alone() {
    let table = Table::db_open(FileImage::new(stored(20)));
    let file = table.pager.file.bytes.clone();
    plan("select", &table);
    plan("insert 1 a b", &table);
    plan(".exit", &table);
    assert!(table.pager.pages.iter().all(|p| p.is_empty()));
    assert_eq!(table.pager.file.bytes, file);
    assert_eq!(table.num_rows, 20);
}

#[test]
fn a_session_fed_piece_by_piece_runs_like_one_fed_the_whole_file() {
    let disk = stored(40);
    let sessions: [&[&str]; 5] = [
        &["select", ".exit"],
        &["insert 40 x y", "select", ".exit"],
        &["insert 40 x y", ".exit"],
        &["insert 40 x y", "insert 41 z w", "insert 42 u v", "select", ".foo", ".exit"],
        &[".exit"],
    ];
    for lines in sessions {
        let (shown, file) = eager(disk.clone(), lines);
        let (lazily_shown, lazily_stored, _) = lazy(disk.clone(), lines);
        assert_eq!(lazily_shown, shown);
        assert_eq!(lazily_stored, file);
    }
}

#[test]
fn an_insert_fetches_one_page_only() {
    let disk = stored(40);
    let (_, after, fetched) = lazy(disk.clone(), &["insert 40 x y", ".exit"]);
    assert_eq!(fetched, 12 * 291);
    assert_eq!(after.len(), 2 * 4096 + 13 * 291);
    assert_eq!(&after[..2 * 4096], &disk[..2 * 4096]);

    let (_, _, fetched) = lazy(disk.clone(), &["select", "select", ".exit"]);
    assert_eq!(fetched, disk.len());

    let (_, after, fetched) = lazy(disk.clone(), &[".exit"]);
    assert_eq!(fetched, 0);
    assert_eq!(after, disk);
}

#[test]
fn a_session_fed_piece_by_piece_persists() {
    let (_, disk, _) = lazy(Vec::new(), &["insert 1 user1 user1@example.com", ".exit"]);
    assert_eq!(disk.len(), 291);
    let (shown, _, _) = lazy(disk, &["insert 2 user2 user2@example.com", "select", ".exit"]);
    assert_eq!(
        String::from_utf8(shown).unwrap(),
        "Executed.\n(1, user1, user1@example.com)\n(2, user2, user2@example.com)\nExecuted.\n"
    );
}
