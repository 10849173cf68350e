use fastpeq::env::{detect, ApoInstall, DetectError, RegistryReading};

#[test]
fn config_file_appends_config_txt() {
    let install = ApoInstall {
        config_path: r"C:\Program Files\EqualizerAPO\config".to_string(),
    };
    assert_eq!(
        install.config_file(),
        r"C:\Program Files\EqualizerAPO\config\config.txt".to_string()
    );
}

#[test]
fn config_file_does_not_double_a_trailing_separator() {
    let install = ApoInstall {
        config_path: r"D:\APO\".to_string(),
    };
    assert_eq!(install.config_file(), r"D:\APO\config.txt".to_string());
}

#[test]
fn detect_reads_the_config_path() {
    let found = detect(RegistryReading::ConfigPath(r"C:\APO\config".to_string()));
    assert_eq!(
        found,
        Ok(ApoInstall {
            config_path: r"C:\APO\config".to_string()
        })
    );
}

#[test]
fn detect_reports_each_failure() {
    assert_eq!(
        detect(RegistryReading::Unsupported),
        Err(DetectError::UnsupportedPlatform)
    );
    assert_eq!(detect(RegistryReading::KeyMissing), Err(DetectError::NotInstalled));
    assert_eq!(
        detect(RegistryReading::ValueUnreadable("access denied".to_string())),
        Err(DetectError::Registry("access denied".to_string()))
    );
}

#[test]
fn detect_errors_read_as_sentences() {
    assert_eq!(
        DetectError::NotInstalled.message(),
        "Equalizer APO is not installed"
    );
    assert_eq!(
        DetectError::UnsupportedPlatform.message(),
        "Equalizer APO detection is only supported on Windows"
    );
    assert_eq!(
        DetectError::Registry("boom".to_string()).message(),
        "could not read APO registry: boom"
    );
}
