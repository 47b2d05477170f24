use guppty::embed::{find_embedded, marker_bytes, push_trailer};

#[test]
fn built_program_is_found_again() {
    let exe: Vec<u8> = vec![0x7f, b'E', b'L', b'F', 1, 2, 3];
    let source = b"out(\"built with Guppty\")\n".to_vec();
    let mut file = exe.clone();
    push_trailer(&mut file, &source);
    let (start, end) = find_embedded(&file).unwrap();
    assert_eq!((start, end), (exe.len(), exe.len() + source.len()));
    assert_eq!(&file[start..end], &source[..]);
    assert_eq!(&file[end..end + 8], &(source.len() as u64).to_le_bytes());
    assert_eq!(&file[end + 8..], b"\nGUPPTY_EMBEDDED_PROGRAM_V1\n");
}

#[test]
fn empty_program_round_trips() {
    let mut file: Vec<u8> = Vec::new();
    push_trailer(&mut file, &Vec::new());
    assert_eq!(find_embedded(&file), Some((0, 0)));
}

#[test]
fn plain_executable_has_no_program() {
    assert_eq!(find_embedded(&vec![1, 2, 3]), None);
    let mut bytes = vec![0u8; 40];
    bytes.extend(marker_bytes());
    bytes[40 - 8] = 0xff;
    assert_eq!(find_embedded(&bytes), None);
    let mut fits = vec![0u8; 40];
    fits.extend(marker_bytes());
    fits[40 - 8] = 5;
    assert_eq!(find_embedded(&fits), Some((27, 32)));
    assert_eq!(marker_bytes(), b"\nGUPPTY_EMBEDDED_PROGRAM_V1\n".to_vec());
}
