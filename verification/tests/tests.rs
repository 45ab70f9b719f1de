use multi_file_rename_tool::File;

fn random_text_generator(length: usize, state: &mut u64) -> String {
    let char_set = "abcdefghijklmnopqrstuvwxyzABCDEFGHIJKLMNOPQRSTUVWXYZ123456789";
    let chars: Vec<char> = char_set.chars().collect();

    let mut rand_text = String::new();
    for _ in 0..length {
        *state = state
            .wrapping_mul(6364136223846793005)
            .wrapping_add(1442695040888963407);
        let random_index = ((*state >> 33) as usize) % chars.len();
        rand_text.push(chars[random_index]);
    }
    rand_text
}

fn salt_one_random_file(state: &mut u64) {
    let rand_name = random_text_generator(32, state);
    let rand_file_pathbuff = format!("/tmp/{}", rand_name);

    let mut rand_file = File::from_path_buff(rand_file_pathbuff);

    let random_salt = format!(" - {}", random_text_generator(5, state));

    println!("{:?}", rand_file.get_name());
    println!("{:?}\n", rand_file.get_pathbuff());

    rand_file.add_salt(&random_salt);

    println!("{:?}", rand_file.get_name());
    println!("{:?}\n", rand_file.get_pathbuff());

    let expected = format!("/tmp/{}{}", rand_name, random_salt);
    assert_eq!(rand_file.get_pathbuff(), expected);
}

#[test]
fn test_single_file() {
    let mut state: u64 = 0x853c49e6748fea9b;
    salt_one_random_file(&mut state);
}

#[test]
fn test_multiple_files() {
    let mut state: u64 = 0xda3e39cb94b95bdb;
    for _ in 0..100_000 {
        salt_one_random_file(&mut state);
    }
}
