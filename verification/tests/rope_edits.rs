//! Rope behaviour: building from a document, positional insert
//! and delete, and iteration over the contents.

use ruffd::rope::Rope;

const SMALL_PROGRAM: &str = r#"
def main():
    print('a small program')

if __name__ == '__main__':
    main()
"#;
const SMALL_STR: &str = "0123456789";

#[test]
fn small_example() {
    let characters = SMALL_PROGRAM.chars().collect::<Vec<_>>();
    let rope = Rope::from_document(characters);
    let full_str = rope.iter().into_iter().collect::<String>();
    assert_eq!(SMALL_PROGRAM, full_str.as_str());
}

#[test]
fn small_case() {
    let characters = SMALL_STR.chars().collect::<Vec<_>>();
    let rope = Rope::from_document(characters);
    let full_str = rope.iter().into_iter().collect::<String>();
    assert_eq!(SMALL_STR, full_str.as_str());
}

#[test]
fn larger_case() {
    let characters = SMALL_STR.chars().cycle().take(100).collect::<Vec<_>>();
    let start_str = characters.iter().collect::<String>();
    let rope = Rope::from_document(characters);
    let result_str = rope.iter().into_iter().collect::<String>();
    assert_eq!(start_str, result_str);
}

#[test]
fn large_case() {
    let characters = SMALL_STR.chars().cycle().take(10000).collect::<Vec<_>>();
    let start_str = characters.iter().collect::<String>();
    let rope = Rope::from_document(characters);
    let result_str = rope.iter().into_iter().collect::<String>();
    assert_eq!(start_str, result_str);
}

#[test]
fn insert_back() {
    let characters = SMALL_PROGRAM.chars().collect::<Vec<_>>();
    let mut rope = Rope::from_document(characters);
    rope.insert(String::from("some text").chars().collect::<Vec<_>>(), 81)
        .unwrap();
    let full_str = rope.iter().into_iter().collect::<String>();
    let expected = r#"
def main():
    print('a small program')

if __name__ == '__main__':
    main()
some text"#;
    assert_eq!(full_str, expected);
}

#[test]
fn delete_case() {
    let characters = SMALL_PROGRAM.chars().collect::<Vec<_>>();
    let mut rope = Rope::from_document(characters);
    rope.delete(5, 9);
    let full_str = rope.iter().into_iter().collect::<String>();
    let expected = r#"
def ():
    print('a small program')

if __name__ == '__main__':
    main()
"#;
    assert_eq!(full_str, expected);
}

#[test]
fn consecutive_updates() {
    let characters = SMALL_PROGRAM.chars().collect::<Vec<_>>();
    let mut rope = Rope::from_document(characters);
    rope.delete(14, 14);
    rope.insert("    x = 3".chars().collect::<Vec<_>>(), 14)
        .unwrap();
    rope.delete(14, 23);
    rope.insert(vec![], 14).unwrap();
    let full_str = rope.iter().into_iter().collect::<String>();
    assert_eq!(full_str, SMALL_PROGRAM);
}
