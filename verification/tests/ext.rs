use config::ext::escape::unescape_bytes;
use config::ext::{Indent, IterJoin, Join};
use config::fmt::ConfigFmt;
use config::key::Key;

fn join(values: &[&str], sep: &str) -> Vec<u8> {
    Join::new(values.iter().map(|v| v.as_bytes().to_vec()).collect(), sep.as_bytes().to_vec()).render()
}

#[test]
fn empty_iter_to_string() {
    for sep in ["", "A", "true", "9", "3.14"] {
        assert_eq!(join(&[], sep), b"".to_vec());
    }
}

#[test]
fn once_iter_to_string() {
    assert_eq!(join(&[""], ""), b"".to_vec());
    assert_eq!(join(&[""], "A"), b"".to_vec());
    assert_eq!(join(&["hello"], ""), b"hello".to_vec());
    assert_eq!(join(&["true"], "A"), b"true".to_vec());
    assert_eq!(join(&["9"], "A"), b"9".to_vec());
    assert_eq!(join(&["3.14"], "A"), b"3.14".to_vec());
}

#[test]
fn twice_iter_to_string() {
    assert_eq!(join(&["hello", "world"], ""), b"helloworld".to_vec());
    assert_eq!(join(&["hello", "world"], " "), b"hello world".to_vec());
    assert_eq!(join(&["hello", "world"], " foo bar "), b"hello foo bar world".to_vec());
    assert_eq!(join(&["3.14", "2.7"], "A"), b"3.14A2.7".to_vec());
}

#[test]
fn thrice_iter_to_string() {
    assert_eq!(join(&["hello", "again", "world"], "-"), b"hello-again-world".to_vec());
    assert_eq!(join(&["0", "1", "2"], "true"), b"0true1true2".to_vec());
}

#[test]
fn iter_join() {
    let pieces: Vec<Vec<u8>> = vec![b"foo".to_vec(), b"bar".to_vec()];
    assert_eq!(pieces.join(b" bas ".to_vec()).render(), b"foo bas bar".to_vec());
    let none: Vec<Vec<u8>> = vec![];
    assert_eq!(none.join(b"never".to_vec()).render(), b"".to_vec());
}

#[test]
fn unescape_drops_one_backslash() {
    assert_eq!(unescape_bytes(b"a\\b"), b"ab".to_vec());
    assert_eq!(unescape_bytes(b"\\\\"), b"\\".to_vec());
    assert_eq!(unescape_bytes(b"x\\"), b"x\\".to_vec());
    assert_eq!(unescape_bytes(b"\\\"q\\\""), b"\"q\"".to_vec());
}

#[test]
fn indent_saturates() {
    let i = Indent::new(usize::MAX - 1);
    assert_eq!((i + 5usize).0, usize::MAX);
    assert_eq!((Indent::new(3) - 5usize).0, 0);
    assert_eq!((Indent::new(3) * Indent::new(4)).0, 12);
    assert_eq!((Indent::new(usize::MAX) * 2usize).0, usize::MAX);
    assert_eq!((Indent::new(9) / 2usize).0, 4);
    let mut j = Indent::new(1);
    j += Indent::new(2);
    j -= 1usize;
    j *= 3usize;
    j /= Indent::new(2);
    assert_eq!(j.0, 3);
    assert_eq!(Indent::new(3).render(), b"   ".to_vec());
}

#[test]
fn fmt_next_indents_unless_flattened() {
    let key = Key::from_static(b"G");
    let f = ConfigFmt::new().with_key(&key);
    assert_eq!(f.key().map(|k| k.as_bytes().to_vec()), Some(b"G".to_vec()));
    let n = f.next();
    assert!(n.key().is_none());
    assert_eq!(n.indent().0, 4);
    assert_eq!(n.next().indent().0, 8);
    let flat = n.with_flatten();
    assert_eq!(flat.next().indent().0, 4);
    assert!(!flat.next().flatten());
    assert_eq!(ConfigFmt::new().with_indent_increments(Indent::new(2)).indent().0, 2);
    assert_eq!(ConfigFmt::new().with_indent(Indent::new(7)).next().indent().0, 11);
}
