use nbody_ring::record::chunk;
use nbody_ring::record::gather_capacity;
use nbody_ring::record::positions;
use nbody_ring::record::split_fields;
use nbody_ring::record::strip_padding;
use nbody_ring::record::COMMA;
use nbody_ring::err::ParseError;
use nbody_ring::star::Particle;
use nbody_ring::star::Unit;

fn texts_of(line: &str) -> Vec<String> {
    split_fields(line.as_bytes())
        .into_iter()
        .map(|f| String::from_utf8(f).unwrap())
        .collect()
}

fn read_number(field: &[u8]) -> Option<Unit> {
    std::str::from_utf8(field).ok()?.parse::<f32>().ok().map(f32::to_bits)
}

fn read_record(line: &str) -> Vec<Option<Unit>> {
    split_fields(line.as_bytes()).iter().map(|f| read_number(f)).collect()
}

#[test]
fn comma_is_the_comma() {
    assert_eq!(COMMA, b',');
}

#[test]
fn split_a_complete_record() {
    assert_eq!(
        texts_of("1.5,-2,3.25,0.5,0,-0.125,7,0.75"),
        vec!["1.5", "-2", "3.25", "0.5", "0", "-0.125", "7", "0.75"]
    );
}

#[test]
fn split_keeps_empty_fields() {
    assert_eq!(texts_of(""), vec![""]);
    assert_eq!(texts_of(","), vec!["", ""]);
    assert_eq!(texts_of("a,,b"), vec!["a", "", "b"]);
    assert_eq!(texts_of(",a,"), vec!["", "a", ""]);
    assert_eq!(texts_of("no comma here"), vec!["no comma here"]);
}

#[test]
fn split_agrees_with_std() {
    for line in ["", ",", ",,", "1,2,3", "a,b,,c,", " 1 , 2 ", "x", "pos,vel\u{e9},m"] {
        let want: Vec<&str> = line.split(",").collect();
        assert_eq!(texts_of(line), want);
    }
}

#[test]
fn split_then_join_is_the_line() {
    for line in ["", ",", "1,2,3", "a,b,,c,", "x"] {
        let joined = texts_of(line).join(",");
        assert_eq!(joined, line);
    }
}

#[test]
fn chunk_puts_a_comma_after_every_record() {
    assert_eq!(chunk(&vec![]), b"".to_vec());
    assert_eq!(chunk(&vec![b"1,2,3".to_vec()]), b"1,2,3,".to_vec());
    assert_eq!(chunk(&vec![b"1,2,3".to_vec(), b"4,5,6".to_vec()]), b"1,2,3,4,5,6,".to_vec());
    assert_eq!(chunk(&vec![b"".to_vec(), b"x".to_vec()]), b",x,".to_vec());
}

#[test]
fn chunk_reads_back_as_its_records_and_an_empty_field() {
    let records = vec![b"1.5".to_vec(), b"-2".to_vec(), b"3.25".to_vec()];
    let mut want = records.clone();
    want.push(Vec::new());
    assert_eq!(split_fields(&chunk(&records)), want);
}

#[test]
fn gather_capacity_is_one_chunk_more_than_the_processes_need() {
    assert_eq!(gather_capacity(0, 4), 0);
    assert_eq!(gather_capacity(10, 0), 10);
    assert_eq!(gather_capacity(10, 1), 20);
    assert_eq!(gather_capacity(7, 3), 28);
}

#[test]
fn strip_padding_drops_zero_bytes_only() {
    assert_eq!(strip_padding(&[]), Vec::<u8>::new());
    assert_eq!(strip_padding(&[0, 0, 0]), Vec::<u8>::new());
    assert_eq!(strip_padding(b"1,2,"), b"1,2,".to_vec());
    assert_eq!(strip_padding(&[0, b'1', 0, b',', b'2', 0, 0]), b"1,2".to_vec());
}

#[test]
fn gathered_line_of_two_processes() {
    let first = chunk(&vec![b"1,2,3".to_vec()]);
    let second = chunk(&vec![b"4,5,6".to_vec()]);
    let mut room = vec![0u8; gather_capacity(first.len(), 2)];
    room[..first.len()].copy_from_slice(&first);
    room[first.len()..first.len() + second.len()].copy_from_slice(&second);
    assert_eq!(room.len(), 18);
    assert_eq!(strip_padding(&room), b"1,2,3,4,5,6,".to_vec());
}

#[test]
fn positions_are_the_only_numbers_written() {
    let a = Particle::from_str(&read_record("1,2,3,4,5,6,7,8")).unwrap();
    let b = Particle::from_str(&read_record("-1,-2,-3,40,50,60,70,80")).unwrap();
    assert_eq!(positions(&vec![]), Vec::<Unit>::new());
    let got: Vec<f32> = positions(&vec![a, b]).into_iter().map(f32::from_bits).collect();
    assert_eq!(got, vec![1.0, 2.0, 3.0, -1.0, -2.0, -3.0]);
}

#[test]
fn position_survives_reading_and_writing() {
    let line = "1.5,-2,3.25,0.5,0,-0.125,7,0.75";
    let p = Particle::from_str(&read_record(line)).unwrap();
    let written: Vec<Vec<u8>> = positions(&vec![p])
        .into_iter()
        .map(|bits| format!("{}", f32::from_bits(bits)).into_bytes())
        .collect();
    let out = chunk(&written);
    assert_eq!(out, b"1.5,-2,3.25,".to_vec());
    let back = split_fields(&out);
    assert_eq!(back[..3], split_fields(line.as_bytes())[..3]);
    assert_eq!(back.len(), 4);
}

#[test]
fn writing_is_lossy() {
    let a = Particle::from_str(&read_record("1,2,3,4,5,6,7,8")).unwrap();
    let b = Particle::from_str(&read_record("1,2,3,0,0,0,1,1")).unwrap();
    assert_ne!(a, b);
    assert_eq!(positions(&vec![a]), positions(&vec![b]));
}

#[test]
fn record_with_a_word_for_a_number() {
    assert_eq!(
        Particle::from_str(&read_record("1,2,three,4,5,6,7,8")),
        Err(ParseError::CannotParse)
    );
    assert_eq!(
        Particle::from_str(&read_record("1,2,3,4,5,6,7")),
        Err(ParseError::TooFewArguments)
    );
    assert_eq!(Particle::from_str(&read_record("")), Err(ParseError::TooFewArguments));
    assert_eq!(
        Particle::from_str(&read_record("px,py,pz,vx,vy,vz,mass,radius")),
        Err(ParseError::CannotParse)
    );
}
