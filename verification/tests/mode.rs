use indexa::mode::{has_flag, Mode};

#[test]
fn flag() {
    assert!(has_flag(0b11, 1));
    assert!(has_flag(0b11, 0));
    assert!(has_flag(0b11, 0b10));
    assert!(!has_flag(0b10, 1));
}

fn check(mode: u32, powershell: &str, traditional: &str) {
    let mode = Mode::from(mode);
    assert_eq!(mode.display_powershell().to_string(), powershell);
    assert_eq!(mode.display_traditional().to_string(), traditional);
}

#[test]
fn check_both() {
    check(0x0000, "-----", "");
    check(0x0010, "d----", "D");
    check(0x0020, "-a---", "A");
    check(0x0021, "-ar--", "RA");
    check(0x0023, "-arh-", "RHA");
    check(0x0024, "-a--s", "SA");
    check(0x0027, "-arhs", "RHSA");
    check(0x0122, "-a-h-", "HAT");
    check(0x0220, "-a---", "AP");
    check(0x0410, "l----", "DL");
    check(0x0420, "la---", "AL");
    check(0x0820, "-a---", "AC");
    check(0x1010, "d----", "DO");
    check(0x1224, "-a--s", "SAPO");
    check(0x1326, "-a-hs", "HSATPO");
    check(0x2004, "----s", "SI");
    check(0x2020, "-a---", "AI");
    check(0x2024, "-a--s", "SAI");
    check(0x2026, "-a-hs", "HSAI");
    check(0x2920, "-a---", "ATCI");
    check(0x200000 - 1, "larhs", "RHSVDAXNTPLCOIEVXPU");
}

#[test]
fn unix_renderings() {
    assert_eq!(Mode::from(0o40755).display_symbolic().to_string(), "drwxr-xr-x");
    assert_eq!(Mode::from(0o40755).display_octal().to_string(), "0755");
    assert_eq!(Mode::from(0o100644).display_symbolic().to_string(), "-rw-r--r--");
    assert_eq!(Mode::from(0o104755).display_symbolic().to_string(), "-rwsr-xr-x");
    assert_eq!(Mode::from(0o41777).display_symbolic().to_string(), "drwxrwxrwt");
    assert_eq!(Mode::from(0o41776).display_symbolic().to_string(), "drwxrwxrwT");
    assert_eq!(Mode::from(0o120777).display_symbolic().to_string(), "lrwxrwxrwx");
    assert_eq!(Mode::from(0o4644).display_octal().to_string(), "4644");
}

#[test]
fn octal_agrees_with_symbolic() {
    for bits in [0o0, 0o7777, 0o4750, 0o2641, 0o1006, 0o0531] {
        let mode = Mode::from(bits);
        let oct: Vec<u32> = mode.display_octal().to_string().chars().map(|c| c.to_digit(8).unwrap()).collect();
        let sym: Vec<char> = mode.display_symbolic().to_string().chars().collect();
        for class in 0..3 {
            let d = oct[class + 1];
            assert_eq!(sym[1 + 3 * class] == 'r', d & 4 == 4);
            assert_eq!(sym[2 + 3 * class] == 'w', d & 2 == 2);
            assert_eq!(matches!(sym[3 + 3 * class], 'x' | 's' | 't'), d & 1 == 1);
        }
        assert_eq!(matches!(sym[3], 's' | 'S'), oct[0] & 4 == 4);
        assert_eq!(matches!(sym[6], 's' | 'S'), oct[0] & 2 == 2);
        assert_eq!(matches!(sym[9], 't' | 'T'), oct[0] & 1 == 1);
    }
}

#[test]
fn hidden_attribute() {
    assert!(Mode::from(0x2).is_hidden());
    assert!(!Mode::from(0x1).is_hidden());
    assert_eq!(Mode::new().bits(), 0);
}
