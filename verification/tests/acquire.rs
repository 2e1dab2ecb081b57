use crcns_lens::global::{
    add_or_get_progress, get_state, get_state_collection, get_state_dataset,
    get_state_dataset_files, set_state_collection, set_state_dataset, set_state_dataset_files,
};
use crcns_lens::net::get_crcns_file;
use crcns_lens::net::write_response::{
    write_response, write_response_with_sender, AcquireError, Progress,
};
use crcns_lens::types::state::progress_key;
use crcns_lens::types::{Collection, Dataset, File, State};

fn p(numerator: u64, denominator: u64) -> Progress {
    Progress { numerator, denominator }
}

#[test]
fn the_request_is_a_form_posted_to_the_endpoint() {
    let r = get_crcns_file("hc-3/filelist.txt", "alice", "secret");
    assert_eq!(r.url, "https://portal.nersc.gov/project/crcns/download/index.php");
    let form: Vec<(String, String)> = r.form.iter().map(|f| (f.name.clone(), f.value.clone())).collect();
    assert_eq!(
        form,
        vec![
            (String::from("username"), String::from("alice")),
            (String::from("password"), String::from("secret")),
            (String::from("fn"), String::from("hc-3/filelist.txt")),
            (String::from("submit"), String::from("Login")),
        ]
    );
}

#[test]
fn the_plan_names_the_remote_and_the_local_path() {
    let mut d = Dataset::sentinel(String::new());
    d.alias = String::from("hc-3");
    let a = d.get_crcns_file("hc", "docs/readme.txt", "/home/me", "u", "p");
    assert_eq!(a.remote_path, "hc-3/docs/readme.txt");
    assert_eq!(a.local_path, "/home/me/data/hc/hc-3/docs/readme.txt");
    assert_eq!(a.request.form[2].value, "hc-3/docs/readme.txt");
}

#[test]
fn a_response_without_length_cannot_be_followed() {
    assert_eq!(write_response(None).err(), Some(AcquireError::MissingLength));
    assert_eq!(write_response_with_sender(None, &vec![1, 2]).err(), Some(AcquireError::MissingLength));
}

#[test]
fn one_value_is_reported_for_each_piece() {
    assert_eq!(write_response_with_sender(Some(4), &vec![2, 2]), Ok(vec![p(2, 4), p(4, 4)]));
    let r = write_response_with_sender(Some(10), &vec![4, 0, 6]).unwrap();
    assert_eq!(r, vec![p(4, 10), p(4, 10), p(10, 10)]);
    let r = write_response_with_sender(Some(10), &vec![10, 0]).unwrap();
    assert_eq!(r, vec![p(10, 10), p(10, 10)]);
    let r = write_response_with_sender(Some(10), &vec![8, 8]).unwrap();
    assert_eq!(r, vec![p(8, 10), p(10, 10)]);
}

#[test]
fn a_closing_one_is_reported_where_the_pieces_fall_short() {
    assert_eq!(write_response_with_sender(Some(10), &vec![3, 3]), Ok(vec![p(3, 10), p(6, 10), p(10, 10)]));
    assert_eq!(write_response_with_sender(Some(7), &vec![]), Ok(vec![p(7, 7)]));
    assert_eq!(write_response_with_sender(Some(0), &vec![]), Ok(vec![p(1, 1)]));
    assert_eq!(write_response_with_sender(Some(0), &vec![5]), Ok(vec![p(1, 1)]));
    assert_eq!(write_response_with_sender(Some(0), &vec![0]), Ok(vec![p(1, 1)]));
}

#[test]
fn progress_never_goes_down_and_ends_at_one() {
    for (total, chunks) in [
        (10u64, vec![3usize, 3, 3]),
        (10, vec![8, 8, 8]),
        (10, vec![5, 5]),
        (0, vec![]),
        (0, vec![5]),
        (7, vec![]),
        (1000, vec![1; 50]),
        (50, vec![1; 50]),
    ] {
        let r = write_response_with_sender(Some(total), &chunks).unwrap();
        let received: u64 = chunks.iter().map(|c| *c as u64).sum();
        let complete = !chunks.is_empty() && received >= total;
        assert_eq!(r.len(), if complete { chunks.len() } else { chunks.len() + 1 });
        for w in r.windows(2) {
            let (a, b) = (w[0], w[1]);
            assert!(a.numerator as u128 * b.denominator as u128 <= b.numerator as u128 * a.denominator as u128);
        }
        for v in &r {
            assert!(v.denominator > 0 && v.numerator <= v.denominator);
        }
        let last = r[r.len() - 1];
        assert_eq!(last.numerator, last.denominator);
        assert_eq!(last.numerator as f64 / last.denominator as f64, 1.0);
    }
}

#[test]
fn pieces_are_counted_one_by_one() {
    let mut t = write_response(Some(100)).unwrap();
    assert_eq!(t.progress(), p(0, 100));
    assert!(!t.reported);
    assert_eq!(t.chunk(30), Ok(p(30, 100)));
    assert!(t.reported);
    assert_eq!(t.chunk(80), Ok(p(100, 100)));
    assert_eq!(t.downloaded, 110);
    assert_eq!(t.finish(), None);
    let mut t = write_response(Some(100)).unwrap();
    assert_eq!(t.chunk(99), Ok(p(99, 100)));
    assert_eq!(t.finish(), Some(p(100, 100)));
    let t = write_response(Some(0)).unwrap();
    assert_eq!(t.progress(), p(1, 1));
    assert_eq!(t.finish(), Some(p(1, 1)));
    let t = write_response(Some(3)).unwrap();
    assert_eq!(t.finish(), Some(p(3, 3)));
}

#[test]
fn a_count_that_does_not_fit_is_a_failure() {
    let mut t = write_response(Some(5)).unwrap();
    t.downloaded = u64::MAX - 1;
    assert_eq!(t.chunk(1), Ok(p(5, 5)));
    assert_eq!(t.chunk(1), Err(AcquireError::CountOverflow));
    assert_eq!(t.downloaded, u64::MAX);
    assert_eq!(t.total, 5);
    let r = write_response_with_sender(Some(5), &vec![usize::MAX, 1]);
    assert_eq!(r.err(), Some(AcquireError::CountOverflow));
}

#[test]
fn the_key_of_a_download_names_collection_dataset_and_file() {
    assert_eq!(progress_key("hc", "hc-3", "filelist.txt"), "hc/hc-3/filelist.txt");
    assert_eq!(progress_key("", "", ""), "//");
}

#[test]
fn a_download_has_one_slot() {
    let mut state = State::new(String::from("/w"));
    assert_eq!(add_or_get_progress(&mut state, String::from("hc/hc-3/a")), 0);
    assert_eq!(add_or_get_progress(&mut state, String::from("hc/hc-3/b")), 1);
    state.set_progress(0, p(3, 4));
    assert_eq!(add_or_get_progress(&mut state, String::from("hc/hc-3/a")), 0);
    assert_eq!(state.progress.len(), 2);
    assert_eq!(state.progress[0].key, "hc/hc-3/a");
    assert_eq!(state.progress[0].progress, p(3, 4));
    assert_eq!(state.progress[1].progress, p(0, 1));
    assert_eq!(state.add_or_get_progress(String::from("c")), 2);
}

#[test]
fn a_new_state_has_nothing_selected() {
    let state = State::new(String::from("/w"));
    assert_eq!(state.working_directory, "/w");
    assert!(get_state_collection(&state) == Collection::default());
    assert!(get_state_dataset(&state) == Dataset::default());
    assert_eq!(get_state_dataset_files(&state).len(), 0);
    assert_eq!(state.collections.len(), 0);
    assert_eq!(state.progress.len(), 0);
}

#[test]
fn what_is_set_is_what_is_read() {
    let mut state = State::new(String::from("/w"));
    let mut c = Collection::sentinel(String::from("2020"));
    c.alias = String::from("hc");
    let mut d = Dataset::sentinel(String::from("2021"));
    d.alias = String::from("hc-3");
    c.datasets.push(d.clone());
    set_state_collection(&mut state, c);
    set_state_dataset(&mut state, d);
    let mut f = File::default();
    f.remote_path = String::from("a.dat");
    f.remote_size = 9;
    set_state_dataset_files(&mut state, vec![f]);
    assert_eq!(get_state_collection(&state).alias, "hc");
    assert_eq!(get_state_collection(&state).last_modified, "2020");
    assert_eq!(get_state_collection(&state).datasets.len(), 1);
    assert_eq!(get_state_dataset(&state).alias, "hc-3");
    assert_eq!(get_state_dataset(&state).last_modified, "2021");
    let files = get_state_dataset_files(&state);
    assert_eq!(files.len(), 1);
    assert_eq!(files[0].remote_path, "a.dat");
    assert_eq!(files[0].remote_size, 9);
    assert_eq!(state.working_directory, "/w");
    let copy = get_state(&state);
    assert_eq!(copy.working_directory, "/w");
    assert_eq!(copy.working_collection.alias, "hc");
    assert_eq!(copy.working_files.len(), 1);
}

#[test]
fn a_blank_file_record() {
    let f = File::default();
    assert_eq!(f.remote_md5, "");
    assert_eq!(f.remote_path, "");
    assert_eq!(f.remote_size, 0);
    assert_eq!(f.local_md5, "");
    assert_eq!(f.local_path, "");
    assert_eq!(f.local_size, 0);
    assert_eq!(f.extension, "");
    let g = f.clone();
    assert_eq!(g.remote_size, 0);
}

#[test]
fn the_local_file_is_where_the_plan_puts_it() {
    let mut d = Dataset::sentinel(String::new());
    d.alias = String::from("hc-3");
    assert_eq!(d.local_file("hc", "filelist.txt", "/w"), "/w/data/hc/hc-3/filelist.txt");
    let a = d.get_crcns_file("hc", "filelist.txt", "/w", "u", "p");
    assert_eq!(a.local_path, d.local_file("hc", "filelist.txt", "/w"));
}

#[test]
fn selecting_takes_the_entries_of_the_catalog() {
    let mut state = State::new(String::from("/w"));
    let mut c = Collection::sentinel(String::from("2020"));
    c.alias = String::from("hc");
    let mut d = Dataset::sentinel(String::from("2021"));
    d.alias = String::from("hc-3");
    c.datasets.push(d);
    state.collections.push(c);
    assert!(!state.select("pfc", "hc-3"));
    assert!(!state.select("hc", "hc-4"));
    assert_eq!(state.working_collection.alias, "Default");
    assert!(state.select("hc", "hc-3"));
    assert_eq!(state.working_collection.alias, "hc");
    assert_eq!(state.working_collection.datasets.len(), 1);
    assert_eq!(state.working_dataset.alias, "hc-3");
    assert_eq!(state.working_dataset.last_modified, "2021");
}
