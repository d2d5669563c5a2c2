use baza_core::dump::{dump, restore, Algorithm};
use baza_core::password::generate;
use baza_core::storage::MemoryBackend;
use baza_core::vault::Vault;

fn create(vault: &mut Vault<MemoryBackend>, name: &str) {
    let password = generate(255, false, false, false).unwrap();
    vault.add(name, password.as_bytes()).unwrap();
    let edited = generate(255, false, false, false).unwrap();
    vault.update(name, edited.as_bytes()).unwrap();
    assert_eq!(vault.read(name).unwrap(), edited.as_bytes());
}

#[test]
fn container_it_works() {
    let mut vault = Vault::new(MemoryBackend::new(), "::");
    let password = generate(255, false, false, false).unwrap();
    vault.init(Some(password.clone())).unwrap();
    vault.lock();

    vault.unlock(&password);
    let bundles = vec![
        "test::my::login",
        "test::my.test::login.ru",
        "test::my@test::login@ru",
        "test::my/test::login/ru",
        "test::my-test::login-ru",
        "test::my_test::login_ru",
    ];
    for name in bundles {
        create(&mut vault, name);
        vault.read(name).unwrap();
        vault.delete(name).unwrap();
    }
}

#[test]
fn lib_it_works() {
    let password = generate(255, false, false, false);
    assert!(password.is_ok());
    let password = password.unwrap();
    assert!(password.len() == 255);

    let mut vault = Vault::new(MemoryBackend::new(), "::");
    assert!(vault.init(Some(password.clone())).is_ok());
    vault.lock();
    vault.unlock(&password);
    assert!(!vault.is_locked());
}

#[test]
fn roundtrip_none() {
    let s = (42u32, String::from("hello"));
    let dumped = match postcard::to_stdvec(&s)
        .map_err(|e| e.to_string())
        .and_then(|bytes| dump(&bytes, Algorithm::Uncompressed).map_err(|e| e.message()))
    {
        Ok(d) => d,
        Err(e) => panic!("dump failed: {}", e),
    };
    let restored: (u32, String) = match restore(&dumped)
        .map_err(|e| e.message())
        .and_then(|bytes| postcard::from_bytes(&bytes).map_err(|e| e.to_string()))
    {
        Ok(r) => r,
        Err(e) => panic!("restore failed: {}", e),
    };
    assert_eq!(restored, s);
}

#[test]
fn roundtrip_lz4() {
    let s = (
        123u32,
        String::from("some longer text to benefit from compression"),
    );
    let dumped = match postcard::to_stdvec(&s)
        .map_err(|e| e.to_string())
        .and_then(|bytes| dump(&bytes, Algorithm::Lz4).map_err(|e| e.message()))
    {
        Ok(d) => d,
        Err(e) => panic!("dump failed: {}", e),
    };
    let restored: (u32, String) = match restore(&dumped)
        .map_err(|e| e.message())
        .and_then(|bytes| postcard::from_bytes(&bytes).map_err(|e| e.to_string()))
    {
        Ok(r) => r,
        Err(e) => panic!("restore failed: {}", e),
    };
    assert_eq!(restored, s);
}
