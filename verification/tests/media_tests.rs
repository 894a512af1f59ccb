use talksage::media::{media_format, MediaFormat};

#[test]
fn rejects_unsupported_extension_with_supported_formats_in_message() {
    let error = media_format("ogg").unwrap_err();
    assert!(error.contains("WAV、MP3、MP4/M4A"));
    assert_eq!(error, "不支持的录音格式: .ogg（支持 WAV、MP3、MP4/M4A）");
}

#[test]
fn media_extensions_are_matched_without_case() {
    assert_eq!(media_format("wav"), Ok(MediaFormat::Wav));
    assert_eq!(media_format("MP3"), Ok(MediaFormat::Mp3));
    assert_eq!(media_format("Mp4"), Ok(MediaFormat::Mp4));
    assert_eq!(media_format("M4A"), Ok(MediaFormat::M4a));
    assert_eq!(media_format("FLAC").unwrap_err(), "不支持的录音格式: .flac（支持 WAV、MP3、MP4/M4A）");
    assert!(media_format("").is_err());
}
