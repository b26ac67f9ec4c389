use rapidarchive::tar::ustar::{format_tar_filename, format_tar_numeral, format_tar_string};
use rapidarchive::tar::{HeaderError, PathPart, TarFileType};
use std::path;

fn path_parts(text: &str) -> Vec<PathPart> {
    path::Path::new(text)
        .components()
        .map(|component| match component {
            path::Component::RootDir => PathPart::RootDir,
            path::Component::CurDir => PathPart::CurDir,
            path::Component::ParentDir => PathPart::ParentDir,
            path::Component::Normal(name) => PathPart::Normal(name.to_string_lossy().into_owned()),
            path::Component::Prefix(prefix) => {
                PathPart::Normal(prefix.as_os_str().to_string_lossy().into_owned())
            }
        })
        .collect()
}


#[test]
fn format_tar_numeral_8() {
    assert_eq!(match format_tar_numeral(0o755, 8) {
        Some(x) => x,
        None => vec![]
    }, vec![0x30, 0x30, 0x30, 0x30, 0x37, 0x35, 0x35, 0x00]);
}

#[test]
fn format_tar_numeral_8_large() {
    assert!(match format_tar_numeral(0xDEADBE, 8) {
        Some(_) => false,
        None => true
    });
}

#[test]
fn format_tar_string_32() {
    let formatted = format_tar_string("root", 32).unwrap();
    assert_eq!("root".as_bytes(), &formatted[0..4]);
    assert_eq!(vec![0 as u8; 28], &formatted[4..]);
}

#[test]
fn format_tar_filename_short() {
    let (old, posix) = format_tar_filename(&path_parts("quux"), TarFileType::FileStream).unwrap();
    assert_eq!(old.len(), 100);
    assert_eq!(posix.len(), 155);
    assert_eq!("quux".as_bytes(), &old[0..4]);
    assert_eq!(vec![0 as u8; 96], &old[4..]);
    assert_eq!(vec![0 as u8; 155], posix);
}

#[test]
fn format_tar_filename_medium() {
    let (old, posix) = format_tar_filename(&path_parts("1/2/3/4/5/6/7/8/9/a/b/c/d/e/f/g/h/i/j/k/l/m/n/o/p/q/r/s/t/u/v/w/x/y/z/aa/ab/ac/ad/ae/af/ag/ah/ai/aj/ak/quux"), TarFileType::FileStream).unwrap();
    
    assert_eq!(old.len(), 100);
    assert_eq!(posix.len(), 155);
    assert_eq!("6/7/8/9/a/b/c/d/e/f/g/h/i/j/k/l/m/n/o/p/q/r/s/t/u/v/w/x/y/z/aa/ab/ac/ad/ae/af/ag/ah/ai/aj/ak/quux".as_bytes(), &old[0..97]);
    assert_eq!(vec![0 as u8; 3], &old[97..]);
    assert_eq!("1/2/3/4/5".as_bytes(), &posix[0..9]);
    assert_eq!(vec![0 as u8; 146], &posix[9..]);
}

#[test]
fn format_tar_filename_long() {
    let my_err = format_tar_filename(&path_parts("1/2/3/4/5/6/7/8/9/a/b/c/d/e/f/g/h/i/j/k/l/m/n/o/p/q/r/s/t/u/v/w/x/y/z/aa/ab/ac/ad/ae/af/ag/ah/ai/aj/ak/1/2/3/4/5/6/7/8/9/a/b/c/d/e/f/g/h/i/j/k/l/m/n/o/p/q/r/s/t/u/v/w/x/y/z/aa/ab/ac/ad/ae/af/ag/ah/ai/aj/ak/1/2/3/4/5/6/7/8/9/a/b/c/d/e/f/g/h/i/j/k/l/m/n/o/p/q/r/s/t/u/v/w/x/y/z/aa/ab/ac/ad/ae/af/ag/ah/ai/aj/ak/quux"), TarFileType::FileStream).unwrap_err();
    
    assert_eq!(my_err, HeaderError::NameTooLong);
}
