use flate2::read::GzDecoder;
use gitlab_runner::artifact::Artifact;
use gitlab_runner::client::{ArtifactFormat, ArtifactWhen, Error, JobArtifact};
use gitlab_runner::uploader::Uploader;
use std::io::{Cursor, Read, Write};

fn artifact(name: Option<&str>, format: ArtifactFormat) -> JobArtifact {
    JobArtifact {
        name: name.map(|n| n.to_string()),
        untracked: false,
        paths: vec!["*".to_string()],
        when: ArtifactWhen::OnSuccess,
        artifact_type: "archive".to_string(),
        artifact_format: format,
        expire_in: Some("1 day".to_string()),
    }
}

fn zip_with(names: &[&str]) -> Vec<u8> {
    let mut zip = zip::ZipWriter::new(Cursor::new(Vec::new()));
    for name in names {
        zip.start_file(*name, zip::write::FileOptions::default()).unwrap();
        zip.write_all(name.as_bytes()).unwrap();
    }
    zip.finish().unwrap().into_inner()
}

fn content(artifact: &mut Artifact, name: &str) -> Vec<u8> {
    let mut file = artifact.file(name).expect("file not available");
    assert_eq!(file.name(), name);
    let mut data = Vec::new();
    file.read_to_end(&mut data).expect("Failed to read content");
    data
}

#[test]
fn zip_is_read_back() {
    let mut uploader = Uploader::new(&artifact(None, ArtifactFormat::Zip), &Vec::new());
    assert_eq!(uploader.file_name(), "default.zip");
    assert_eq!(uploader.format_name(), "zip");
    let info = uploader.info("default.zip", "zip");
    assert_eq!(info.artifact_type, "archive");
    assert_eq!(info.expire_in, Some("1 day"));
    uploader.file("test".to_string()).unwrap();
    assert_eq!(uploader.write(b"test"), 4);
    assert_eq!(uploader.write(b"data"), 4);
    uploader.file("dir/test2".to_string()).unwrap();
    assert_eq!(uploader.write(b"testdata2"), 9);
    uploader.file("empty".to_string()).unwrap();
    let data = uploader.finish().unwrap();

    let mut artifact = Artifact::new(data).unwrap();
    assert_eq!(artifact.len(), 3);
    assert!(!artifact.is_empty());
    let mut names = artifact.file_names();
    names.sort_unstable();
    assert_eq!(names, vec!["dir/test2", "empty", "test"]);
    assert_eq!(content(&mut artifact, "test"), b"testdata");
    assert_eq!(content(&mut artifact, "dir/test2"), b"testdata2");
    assert_eq!(content(&mut artifact, "empty"), b"");
    // Reading a file a second time
    assert_eq!(content(&mut artifact, "test"), b"testdata");
    assert!(artifact.file("other").is_none());
    assert_eq!(artifact.by_index(1).unwrap().name(), "dir/test2");
    assert!(artifact.by_index(3).is_none());
}

#[test]
fn gzip_holds_the_contents() {
    let mut uploader = Uploader::new(&artifact(Some("junit"), ArtifactFormat::Gzip), &Vec::new());
    assert_eq!(uploader.file_name(), "junit.gz");
    assert_eq!(uploader.format_name(), "gzip");
    uploader.file("test".to_string()).unwrap();
    assert_eq!(uploader.write(b"testdata"), 8);
    uploader.file("test2".to_string()).unwrap();
    assert_eq!(uploader.write(b"testdata2"), 9);
    let packed = uploader.finish().unwrap();
    let mut data = Vec::new();
    GzDecoder::new(Cursor::new(packed)).read_to_end(&mut data).unwrap();
    assert_eq!(data, b"testdatatestdata2");
}

#[test]
fn raw_artifacts_are_zipped() {
    let uploader = Uploader::new(&artifact(Some("raw"), ArtifactFormat::Raw), &Vec::new());
    assert_eq!(uploader.file_name(), "raw.zip");
    assert_eq!(uploader.format_name(), "raw");
    let artifact = Artifact::new(uploader.finish().unwrap()).unwrap();
    assert!(artifact.is_empty());
}

#[test]
fn masked_files_hide_tokens() {
    let prefixes = vec!["glpat-".to_string()];
    let mut uploader = Uploader::new(&artifact(None, ArtifactFormat::Zip), &prefixes);
    uploader.masked_file("masked".to_string()).unwrap();
    assert_eq!(uploader.write(b"gl"), 2);
    assert_eq!(uploader.write(b"pat-abc end"), 11);
    uploader.file("baseline".to_string()).unwrap();
    assert_eq!(uploader.write(b"glpat-abc end"), 13);
    let mut artifact = Artifact::new(uploader.finish().unwrap()).unwrap();
    assert_eq!(content(&mut artifact, "masked"), b"glpat-[MASKED] end");
    assert_eq!(content(&mut artifact, "baseline"), b"glpat-abc end");
}

#[test]
fn read_in_pieces() {
    let mut artifact = Artifact::new(zip_with(&["abcdefg"])).unwrap();
    let mut file = artifact.file("abcdefg").unwrap();
    let mut data = Vec::new();
    let mut buf = [0; 3];
    loop {
        let n = file.read(&mut buf).unwrap();
        if n == 0 {
            break;
        }
        data.extend_from_slice(&buf[0..n]);
    }
    assert_eq!(data, b"abcdefg");
}

#[test]
fn safe_paths() {
    let names = ["a/b", "/abs", "../up", "a/../../up", "a/../b", "nul\0"];
    let mut artifact = Artifact::new(zip_with(&names)).unwrap();
    let mut safe = Vec::new();
    for i in 0..artifact.len() {
        let file = artifact.by_index(i).unwrap();
        safe.push(file.path().map(|p| p.to_string()));
    }
    assert_eq!(
        safe,
        vec![
            Some("a/b".to_string()),
            None,
            None,
            None,
            Some("a/../b".to_string()),
            None
        ]
    );
}

#[test]
fn last_file_of_a_name() {
    let mut zip = zip::ZipWriter::new(Cursor::new(Vec::new()));
    for data in ["first", "second"] {
        zip.start_file("name", zip::write::FileOptions::default()).unwrap();
        zip.write_all(data.as_bytes()).unwrap();
    }
    let mut artifact = Artifact::new(zip.finish().unwrap().into_inner()).unwrap();
    assert_eq!(artifact.len(), 2);
    assert_eq!(artifact.file_names(), vec!["name"]);
    assert_eq!(content(&mut artifact, "name"), b"second");
}

#[test]
fn damaged_files_are_noticed() {
    let mut zip = zip::ZipWriter::new(Cursor::new(Vec::new()));
    let options = zip::write::FileOptions::default();
    zip.start_file("name", options.compression_method(zip::CompressionMethod::Stored)).unwrap();
    zip.write_all(b"content").unwrap();
    let mut data = zip.finish().unwrap().into_inner();
    let at = data.windows(7).position(|w| w == b"content").unwrap();
    data[at] = b'C';
    let mut artifact = Artifact::new(data).unwrap();
    let mut file = artifact.file("name").unwrap();
    let mut read = b"before ".to_vec();
    assert!(file.read_to_end(&mut read).is_err());
    assert_eq!(read, b"before Content");
    assert!(file.read(&mut [0; 3]).is_err());
}

#[test]
fn reading_nothing_keeps_the_content() {
    let names = ["stored or deflated, it is all the same"];
    let mut artifact = Artifact::new(zip_with(&names)).unwrap();
    let mut file = artifact.by_index(0).unwrap();
    let mut data = Vec::new();
    let mut buf = [0; 5];
    loop {
        assert_eq!(file.read(&mut []), Ok(0));
        let n = file.read(&mut buf).unwrap();
        if n == 0 {
            break;
        }
        data.extend_from_slice(&buf[0..n]);
    }
    assert_eq!(file.read(&mut buf), Ok(0));
    assert_eq!(data, names[0].as_bytes());
}

#[test]
fn damaged_deflated_files_are_noticed() {
    let mut zip = zip::ZipWriter::new(Cursor::new(Vec::new()));
    let options = zip::write::FileOptions::default();
    let options = options.compression_method(zip::CompressionMethod::Deflated);
    zip.start_file("name", options).unwrap();
    zip.write_all(&b"content ".repeat(50)).unwrap();
    let mut data = zip.finish().unwrap().into_inner();
    // The content follows a header of 30 bytes and the name; no block has this type.
    data[34] = 0xff;
    let mut artifact = Artifact::new(data).unwrap();
    let mut file = artifact.file("name").unwrap();
    let mut read = Vec::new();
    assert!(file.read_to_end(&mut read).is_err());
    assert!(file.read(&mut [0; 3]).is_err());
}

#[test]
fn other_data_is_no_artifact() {
    match Artifact::new(b"no zip file".to_vec()) {
        Err(Error::ZipFile(reason)) => assert!(!reason.is_empty()),
        _ => panic!("expected an error"),
    }
}

fn packed(names: &[String]) -> Artifact {
    let mut uploader = Uploader::new(&artifact(None, ArtifactFormat::Zip), &Vec::new());
    for name in names {
        uploader.file(name.clone()).unwrap();
        uploader.write(name.as_bytes());
    }
    Artifact::new(uploader.finish().unwrap()).unwrap()
}

#[test]
fn names_of_all_lengths_are_read_back() {
    for length in 0..40 {
        let names = vec!["first".to_string(), "\u{e4}".repeat(length / 2) + &"x".repeat(length % 2)];
        let mut archive = packed(&names);
        assert_eq!(archive.len(), 2);
        for name in &names {
            assert_eq!(content(&mut archive, name), name.as_bytes());
        }
    }
}

#[test]
fn many_files_are_read_back() {
    for number in [65535, 65536, 65537] {
        let names: Vec<String> = (0..number).map(|n| n.to_string()).collect();
        let mut archive = packed(&names);
        assert_eq!(archive.len(), number);
        assert_eq!(content(&mut archive, "0"), b"0");
        assert_eq!(content(&mut archive, "65534"), b"65534");
        let last = names.last().unwrap();
        assert_eq!(content(&mut archive, last), last.as_bytes());
    }
}

#[test]
fn names_that_look_like_a_large_archive() {
    // The mark is looked for at a certain distance from the end only.
    let mut archive = packed(&["PK\x06\x07".to_string() + &"x".repeat(15)]);
    assert_eq!(archive.len(), 1);
    assert!(archive.by_index(0).is_some());
    let mut uploader = Uploader::new(&artifact(None, ArtifactFormat::Zip), &Vec::new());
    uploader.file("PK\x06\x07".to_string() + &"x".repeat(16)).unwrap();
    assert!(Artifact::new(uploader.finish().unwrap()).is_err());
}

#[test]
fn archives_depend_on_their_files_only() {
    let pack = |pieces: &[&[u8]]| {
        let mut uploader = Uploader::new(&artifact(None, ArtifactFormat::Zip), &Vec::new());
        uploader.file("name".to_string()).unwrap();
        for piece in pieces {
            uploader.write(piece);
        }
        uploader.finish().unwrap()
    };
    assert_eq!(pack(&[b"ab", b"c"]), pack(&[b"abc"]));
}
