use filegen::job::Job;
use filegen::Error;

fn job(string: &str, size: u128, write_size: u128) -> Job {
    Job::new(
        String::from("out/file1.txt"),
        String::from(string),
        size,
        write_size,
    )
}

#[test]
fn content_repeats_and_truncates() {
    let j = job("abc", 10, 4);
    assert_eq!(j.generate(), b"abcabcabca".to_vec());
}

#[test]
fn content_byte_i_is_fill_i_mod_len() {
    let j = job("xyz", 20, 7);
    let out = j.generate();
    assert_eq!(out.len(), 20);
    let fill = b"xyz";
    for (i, b) in out.iter().enumerate() {
        assert_eq!(*b, fill[i % fill.len()]);
    }
}

#[test]
fn content_invariant_to_chunk_size() {
    let sizes: [u128; 5] = [1, 3, 7, 64, 1000];
    let reference = job("abcde", 123, 123).generate();
    for ws in sizes {
        assert_eq!(job("abcde", 123, ws).generate(), reference);
    }
}

#[test]
fn zero_size_is_empty() {
    let j = job("abc", 0, 16);
    assert_eq!(j.generate(), Vec::<u8>::new());
    assert_eq!(j.next_chunk(0), None);
}

#[test]
fn size_smaller_than_chunk_is_one_partial_write() {
    let j = job("ab", 3, 8);
    let chunk = j.next_chunk(0).unwrap();
    assert_eq!(chunk, b"aba".to_vec());
    assert_eq!(j.next_chunk(3), None);
}

#[test]
fn chunks_are_bounded_and_in_order() {
    let j = job("ab", 10, 4);
    let c0 = j.next_chunk(0).unwrap();
    assert_eq!(c0, b"abab".to_vec());
    let c1 = j.next_chunk(4).unwrap();
    assert_eq!(c1, b"abab".to_vec());
    let c2 = j.next_chunk(8).unwrap();
    assert_eq!(c2, b"ab".to_vec());
    assert_eq!(j.next_chunk(10), None);
}

#[test]
fn chunk_alignment_does_not_change_content() {
    // A chunk size the fill length does not divide: successive full chunks
    // differ, the concatenation still repeats the fill string exactly.
    let j = job("ab", 9, 3);
    assert_eq!(j.generate(), b"ababababa".to_vec());
    assert_eq!(j.next_chunk(0).unwrap(), b"aba".to_vec());
    assert_eq!(j.next_chunk(3).unwrap(), b"bab".to_vec());
    assert_eq!(j.next_chunk(6).unwrap(), b"aba".to_vec());
}

#[test]
fn multibyte_fill_is_repeated_bytewise() {
    // "é" encodes as the two bytes 0xC3 0xA9; a 3-byte file truncates
    // mid-character.
    let j = job("é", 3, 2);
    assert_eq!(j.generate(), vec![0xC3, 0xA9, 0xC3]);
}

#[test]
fn rerun_produces_identical_bytes() {
    // Content depends only on the job's parameters, never on prior state:
    // re-running a job overwrites a file with exactly the same bytes.
    let j = job("abc", 50, 8);
    assert_eq!(j.generate(), j.generate());
}

#[test]
fn full_chunks_repeat_when_fill_divides_chunk() {
    // Fill length divides the chunk size: every full chunk is the same
    // buffer, as in a build-once-reuse write loop.
    let j = job("ab", 12, 4);
    let c0 = j.next_chunk(0).unwrap();
    let c1 = j.next_chunk(4).unwrap();
    let c2 = j.next_chunk(8).unwrap();
    assert_eq!(c0, c1);
    assert_eq!(c1, c2);
}

#[test]
fn validate_accepts_fitting_fill() {
    assert_eq!(job("abc", 10, 3).validate(), Ok(()));
    assert_eq!(job("e", 0, 1).validate(), Ok(()));
}

#[test]
fn validate_rejects_fill_longer_than_chunk() {
    assert_eq!(job("abcd", 10, 3).validate(), Err(Error::ConfigurationError));
}

#[test]
fn validate_rejects_empty_fill() {
    assert_eq!(job("", 10, 3).validate(), Err(Error::ConfigurationError));
}

#[test]
fn validate_rejects_zero_chunk() {
    assert_eq!(job("a", 10, 0).validate(), Err(Error::ConfigurationError));
}

#[test]
fn validate_counts_bytes_not_characters() {
    // Two bytes of fill do not fit a one-byte chunk, even as one character.
    assert_eq!(job("é", 4, 1).validate(), Err(Error::ConfigurationError));
    assert_eq!(job("é", 4, 2).validate(), Ok(()));
}

#[test]
fn new_keeps_fields() {
    let j = Job::new(String::from("dir/f1.txt"), String::from("fill"), 42, 7);
    assert_eq!(j.path, "dir/f1.txt");
    assert_eq!(j.string, "fill");
    assert_eq!(j.size, 42);
    assert_eq!(j.write_size, 7);
}

#[test]
fn clone_describes_the_same_file() {
    let j = Job::new(String::from("dir/f1.txt"), String::from("fill"), 42, 7);
    let c = j.clone();
    assert_eq!(c.path, j.path);
    assert_eq!(c.string, j.string);
    assert_eq!(c.size, j.size);
    assert_eq!(c.write_size, j.write_size);
}
