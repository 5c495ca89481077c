use fff::file_format::{ChecksumType, CompressionType, MAJOR_VERSION, MINOR_VERSION};
use fff::postscript::read_postscript;

#[test]
fn test_read_postscript() {
    let bytes: Vec<u8> = vec![
        42, 0, 0, 0, // metadata size
        23, 0, 0, 0, // footer size
        CompressionType::uncompressed().code,
        ChecksumType::xx_hash().code,
        17, 0, 0, 0, 0, 0, 0, 0, // data checksum
        19, 0, 0, 0, 0, 0, 0, 0, // schema checksum
        MAJOR_VERSION as u8, 0, // major version
        MINOR_VERSION as u8, 0, // minor version
        b'F', b'3', // magic
    ];
    let postscript = read_postscript(&bytes).unwrap();
    assert_eq!(postscript.footer_size, 23);
    assert_eq!(postscript.compression, CompressionType::uncompressed());
    assert_eq!(postscript.major_version, MAJOR_VERSION);
    assert_eq!(postscript.minor_version, MINOR_VERSION);
}
