use supertag::types::file_perms::{ClassPerms, Permissions, UMask};

#[test]
fn test_individual_perm() {
    assert_eq!(ClassPerms::new(false, false, false).mode(), 0b000);
    assert_eq!(ClassPerms::new(false, false, true).mode(), 0b001);
    assert_eq!(ClassPerms::new(false, true, false).mode(), 0b010);
    assert_eq!(ClassPerms::new(true, false, false).mode(), 0b100);
    assert_eq!(ClassPerms::new(true, false, true).mode(), 0b101);
    assert_eq!(ClassPerms::new(true, true, false).mode(), 0b110);
    assert_eq!(ClassPerms::new(true, true, true).mode(), 0b111);
    assert_eq!(ClassPerms::new(false, true, true).mode(), 0b011);
}

#[test]
fn test_individual_perm_from_int() {
    let perm: ClassPerms = 0b101.into();
    assert!(perm.read);
    assert!(!perm.write);
    assert!(perm.execute);
}

#[test]
fn test_perm_to_int() {
    let perms: Permissions = 0o664.into();
    assert_eq!(perms.mode(), 0o664);
}

#[test]
fn test_perm_from_int() {
    let perms: Permissions = 0o755.into();
    assert!(perms.owner.read);
    assert!(perms.owner.write);
    assert!(perms.owner.execute);

    assert!(perms.group.read);
    assert!(!perms.group.write);
    assert!(perms.group.execute);

    assert!(perms.others.read);
    assert!(!perms.others.write);
    assert!(perms.others.execute);
}

#[test]
fn octal_string_pads_to_three_digits() {
    let perms: Permissions = 0o7.into();
    assert_eq!(perms.octal_string(), "007");
    let perms: Permissions = 0o644.into();
    assert_eq!(perms.octal_string(), "644");
}

#[test]
fn permissions_from_octal_text() {
    assert_eq!("755".parse::<Permissions>().unwrap().mode(), 0o755);
    assert_eq!(Permissions::from_octal("+644").unwrap().mode(), 0o644);
    assert!(Permissions::from_octal("9").is_err());
    assert!(Permissions::from_octal("").is_err());
    assert!(Permissions::from_octal("-7").is_err());
    assert!(Permissions::from_octal("37777777777").is_ok());
    assert!(Permissions::from_octal("40000000000").is_err());
}

#[test]
fn umask_derives_file_and_dir_perms() {
    let um = UMask(0o022);
    assert_eq!(um.file_perms().mode(), 0o644);
    assert_eq!(um.dir_perms().mode(), 0o755);
    assert_eq!(um.describe(), "UMask(022)");
}

#[test]
fn all_but_write_clears_write_only() {
    let mut p = ClassPerms::new(false, false, false);
    p.all_perms();
    assert_eq!(p.mode(), 7);
    p.all_but_write();
    assert_eq!(p.mode(), 5);
}
