use bal_server::network::Network;
use bal_server::xpub::{
    base58check_decode, base58check_encode, calc_checksum, calculate_fingerprint, convert_to,
    convert_xpub, get_bitcoincore_descriptor, new_address_from_xpub, poly_mod, BS58Prefix,
};

const ZPUB: &str = "zpub6rFR7y4Q2AijBEqTUquhVz398htDFrtymD9xYYfG1m4wAcvPhXNfE3EfH1r1ADqtfSdVCToUG868RvUUkgDKf31mGDtKsAYz2oz2AGutZYs";
const XPUB: &str = "xpub6CatWdiZiodmUeTDp8LT5or8nmbKNcuyvz7WyksVFkKB4RHwCD3XyuvPEbvqAQY3rAPshWcMLoP2fMFMKHPJ4ZeZXYVUhLv1VMrjPC7PW6V";
const TPUB: &str = "tpubDCxX2sYFS5bDkSe5GKKYHjBW7tgyN1R3UchpLJvdbf54ohxeGRtd8MbDUe1cguVHe4vnK68DsuD5MXjxi9EXx16rb9EnNsaF5KT99CinaJz";

#[test]
fn checksum_of_known_descriptors() {
    assert_eq!(calc_checksum("raw(deadbeef)").unwrap(), "89f8spxm");
    assert_eq!(
        calc_checksum("wpkh(02f9308a019258c31049344f85f89d5229b531c845836f99b08601f113bce036f9)").unwrap(),
        "8zl0zxma"
    );
}

#[test]
fn checksum_ignores_existing_checksum() {
    assert_eq!(calc_checksum("raw(deadbeef)#whatever").unwrap(), "89f8spxm");
    assert_eq!(calc_checksum("raw(deadbeef)#").unwrap(), "89f8spxm");
}

#[test]
fn checksum_rejects_characters_outside_the_charset() {
    assert_eq!(
        calc_checksum("raw(dead\tbeef)").unwrap_err(),
        "Invalid character in descriptor: \t"
    );
    assert_eq!(
        calc_checksum("é").unwrap_err(),
        format!("Invalid character in descriptor: {}", 0xc3u8 as char)
    );
    // after the first '#' nothing is looked at
    assert!(calc_checksum("raw(deadbeef)#\t").is_ok());
}

#[test]
fn poly_mod_values() {
    assert_eq!(poly_mod(1, 0), 32);
    assert_eq!(poly_mod(1 << 35, 0), 0xf5dee51989);
    assert_eq!(poly_mod(0, 7), 7);
}

#[test]
fn base58check_roundtrip_and_errors() {
    assert_eq!(base58check_encode(&[0, 1, 2]), "1W8eAT7x");
    assert_eq!(base58check_encode(&[]), "3QJmnh");
    assert_eq!(base58check_decode("1W8eAT7x").unwrap(), vec![0u8, 1, 2]);
    assert_eq!(base58check_decode("3QJmnh").unwrap(), Vec::<u8>::new());
    assert_eq!(base58check_decode("1W8eAT7y").unwrap_err(), "Checksum invalido");
    assert_eq!(base58check_decode("2").unwrap_err(), "Data troppo corta");
    assert!(base58check_decode("0OIl").is_err());
    let data = [7u8, 8, 9, 10, 11];
    assert_eq!(base58check_decode(&base58check_encode(&data)).unwrap(), data.to_vec());
}

#[test]
fn convert_between_prefixes() {
    assert_eq!(convert_to(ZPUB, BS58Prefix::Xpub).unwrap(), XPUB);
    assert_eq!(convert_to(ZPUB, BS58Prefix::Tpub).unwrap(), TPUB);
    assert_eq!(convert_to(XPUB, BS58Prefix::Tpub).unwrap(), TPUB);
    assert_eq!(convert_to(TPUB, BS58Prefix::Zpub).unwrap(), ZPUB);
    assert_eq!(convert_to("1W8eAT7x", BS58Prefix::Xpub).unwrap_err(), "Non è una zpub valida.");
    assert!(convert_to("not base58!", BS58Prefix::Xpub).is_err());
}

#[test]
fn convert_xpub_by_family() {
    assert_eq!(convert_xpub(ZPUB).unwrap(), XPUB);
    assert_eq!(convert_xpub(TPUB).unwrap(), TPUB);
    assert_eq!(
        convert_xpub("abcd").unwrap_err(),
        "Invalid xpub prefix: expected xpub, ypub, zpub, tpub, vpub, or upub"
    );
    assert!(convert_xpub("xp").is_err());
}

#[test]
fn fingerprint_of_account_key() {
    assert_eq!(calculate_fingerprint(ZPUB).unwrap(), "fd13aac9");
    assert_eq!(calculate_fingerprint(TPUB).unwrap(), "fd13aac9");
    assert!(calculate_fingerprint("garbage").is_err());
}

#[test]
fn descriptor_for_zpub() {
    assert_eq!(
        get_bitcoincore_descriptor(ZPUB),
        format!("wpkh([fd13aac9/84h/0h/0h]{}/0/*)#hqlz8twy", XPUB)
    );
    assert_eq!(get_bitcoincore_descriptor("not a key"), "");
}

#[test]
fn first_receive_address_of_bip84_account() {
    let (address, path) = new_address_from_xpub(ZPUB, 0, Network::Bitcoin).unwrap();
    assert_eq!(address, "bc1qcr8te4kr609gcawutmrza0j4xv80jy8z306fyu");
    assert_eq!(path, "m/0/0");
    let (address, path) = new_address_from_xpub(ZPUB, 1, Network::Bitcoin).unwrap();
    assert_eq!(address, "bc1qnjg0jd8228aq7egyzacy8cys3knf9xvrerkf9g");
    assert_eq!(path, "m/0/1");
    assert!(new_address_from_xpub(ZPUB, -1, Network::Bitcoin).is_err());
}

/// Runs the checksum over a descriptor's symbols followed by the symbols of
/// `checksum`, as the verifying side does.
fn checksum_state_after(desc: &str, checksum: &str) -> u64 {
    let input = "0123456789()[],'/*abcdefgh@:$%{}IJKLMNOPQRSTUVWXYZ&+-.;<=>?!^_|~ijklmnopqrstuvwxyzABCDEFGH`#\"\\ ";
    let alphabet = "qpzry9x8gf2tvdw0s3jn54khce6mua7l";
    let (mut c, mut cls, mut count) = (1u64, 0u64, 0u64);
    for ch in desc.chars() {
        let pos = input.find(ch).unwrap() as u64;
        c = poly_mod(c, pos & 31);
        cls = cls * 3 + (pos >> 5);
        count += 1;
        if count == 3 {
            c = poly_mod(c, cls);
            cls = 0;
            count = 0;
        }
    }
    if count > 0 {
        c = poly_mod(c, cls);
    }
    for ch in checksum.chars() {
        c = poly_mod(c, alphabet.find(ch).unwrap() as u64);
    }
    c
}

#[test]
fn appended_checksums_verify() {
    for desc in ["raw(deadbeef)", "wpkh([fd13aac9/84h/0h/0h]xpub6CatWdiZiodmUeTDp8LT5or8nmbKNcuyvz7WyksVFkKB4RHwCD3XyuvPEbvqAQY3rAPshWcMLoP2fMFMKHPJ4ZeZXYVUhLv1VMrjPC7PW6V/0/*)", "a", "ab", ""] {
        let cs = calc_checksum(desc).unwrap();
        assert_eq!(checksum_state_after(desc, &cs), 1);
        assert_ne!(checksum_state_after(desc, "qqqqqqqq"), 1);
    }
}

#[test]
fn converting_to_the_own_prefix_keeps_the_text() {
    assert_eq!(convert_to(XPUB, BS58Prefix::Xpub).unwrap(), XPUB);
    assert_eq!(convert_to(ZPUB, BS58Prefix::Zpub).unwrap(), ZPUB);
    assert_eq!(convert_to(TPUB, BS58Prefix::Tpub).unwrap(), TPUB);
}

#[test]
fn conversion_errors_reach_the_caller() {
    assert_eq!(convert_xpub("xpub1W8eAT7y").unwrap_err(), base58check_decode("xpub1W8eAT7y").unwrap_err());
    assert_eq!(
        convert_xpub("xpubOOOO").unwrap_err(),
        "provided string contained invalid character 'O' at byte 4"
    );
    assert_eq!(convert_to("1W8eAT7y", BS58Prefix::Xpub).unwrap_err(), "Checksum invalido");
    assert_eq!(convert_to("2", BS58Prefix::Xpub).unwrap_err(), "Data troppo corta");
    assert_eq!(calculate_fingerprint("2").unwrap_err(), "Data troppo corta");
    assert_eq!(new_address_from_xpub("1W8eAT7y", 0, Network::Bitcoin).unwrap_err(), "Checksum invalido");
}

#[test]
fn converted_payload_is_new_prefix_and_old_tail() {
    let old = base58check_decode(ZPUB).unwrap();
    let new = base58check_decode(&convert_to(ZPUB, BS58Prefix::Tpub).unwrap()).unwrap();
    assert_eq!(new[0..4], [0x04, 0x35, 0x87, 0xCF]);
    assert_eq!(new[4..], old[4..]);
}
