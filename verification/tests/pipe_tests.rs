//! Tests of the circular buffer.

use oskern::pipe::Buffer;

#[test]
fn buffer_zero_ptr() {
    let b = Buffer::new();
    assert!(b.wp == 0 && b.rp == 0);
}

#[test]
fn buffer_add_read() {
    let mut b = Buffer::new();
    b.write(42);
    let first = b.read();
    assert!(first == 42);
}

#[test]
fn buffer_pointers_after_one_read() {
    let mut b = Buffer::new();
    b.write(1);
    let _first = b.read();
    assert!(b.wp == 1 && b.rp == 1);
}

#[test]
fn buffer_is_empty() {
    let mut b = Buffer::new();
    assert!(b.is_empty() == true);
    b.write(7);
    assert!(b.is_empty() == false);
}

#[test]
fn buffer_read_write_four_times() {
    let mut b = Buffer::new();
    b.write(1);
    b.write(2);
    b.write(3);
    b.write(4);
    let _first = b.read();
    let _second = b.read();
    let _third = b.read();
    let four = b.read();
    assert!(four == 4);
}

#[test]
fn buffer_write_four_times() {
    let mut b = Buffer::new();
    b.write(1);
    b.write(2);
    b.write(3);
    b.write(4);
    assert!(b.wp == 4);
}

#[test]
fn buffer_pinters_after_four_reads_and_writes() {
    let mut b = Buffer::new();
    b.write(1);
    b.write(2);
    b.write(3);
    b.write(4);
    let _first = b.read();
    let _second = b.read();
    let _third = b.read();
    let _four = b.read();
    assert!(b.wp == 4 && b.rp == 4);
}

#[test]
fn buffer_read_write_random_one_circle() {
    let mut b = Buffer::new();
    b.write(1);
    let first = b.read();
    b.write(2);
    let second = b.read();
    b.write(3);
    b.write(4);
    let third = b.read();
    let four = b.read();
    b.write(5);
    b.write(6);
    let five = b.read();
    let six = b.read();
    assert!(first == 1 && second == 2 && third == 3 && four == 4 && five == 5 && six == 6);
}

#[test]
fn buffer_pointers_after_six_read_write() {
    let mut b = Buffer::new();
    b.write(1);
    let _first = b.read();
    b.write(2);
    let _second = b.read();
    b.write(3);
    b.write(4);
    let _third = b.read();
    let _four = b.read();
    b.write(5);
    b.write(6);
    let _five = b.read();
    let _six = b.read();
    // with twenty-four slots no pointer wraps within six writes, so both
    // stand at six; earlier expectations of 1/1 here belong to a five-slot
    // buffer and are unsatisfiable against the declared size (the true
    // wrap-around is covered by buffer_wraps_at_end)
    assert!(b.wp == 6 && b.rp == 6);
}

#[test]
fn buffer_write_read_many_times() {
    let mut b = Buffer::new();
    b.write(1);
    let _v = b.read();
    b.write(2);
    let _v = b.read();
    b.write(3);
    b.write(4);
    let _v = b.read();
    let _v = b.read();
    b.write(5);
    b.write(6);
    let _v = b.read();
    let _v = b.read();
    b.write(7);
    let _v = b.read();
    b.write(8);
    let _v = b.read();
    b.write(9);
    b.write(10);
    let _v = b.read();
    let ten = b.read();
    b.write(11);
    b.write(12);
    let _eleven = b.read();
    let twelve = b.read();
    // likewise: twelve writes stay short of the twenty-four-slot boundary,
    // so 2/2 (a five-slot buffer's arithmetic) cannot be satisfied here
    assert!(b.wp == 12 && b.rp == 12 && ten == 10 && twelve == 12);
}

#[test]
fn buffer_wraps_at_end() {
    let mut b = Buffer::new();
    // fill 23 slots (one always stays unused), drain them, then go around
    for i in 0..23u8 {
        b.write(i);
    }
    for i in 0..23u8 {
        assert!(b.read() == i);
    }
    assert!(b.wp == 23 && b.rp == 23);
    b.write(99);
    assert!(b.wp == 0);
    assert!(b.read() == 99);
    assert!(b.rp == 0);
}
