use gitlab_runner::artifact::Artifact;
use gitlab_runner::client::{ArtifactFormat, ArtifactWhen, JobArtifact};
use gitlab_runner::job::JobLog;
use gitlab_runner::masking::Masker;
use gitlab_runner::uploader::Uploader;

struct TestCase {
    prefixes: Vec<&'static str>,
    input: &'static str,
    expected: &'static str,
}

fn cases() -> Vec<TestCase> {
    vec![
        // simple prefix masking
        TestCase {
            prefixes: vec![],
            input: "Lorem ipsum dolor sit amet, ex ea commodo glpat-imperdiet in voluptate velit esse",
            expected: "Lorem ipsum dolor sit amet, ex ea commodo glpat-[MASKED] in voluptate velit esse",
        },
        // prefix at the end of the line
        TestCase {
            prefixes: vec![],
            input: "Lorem ipsum dolor sit amet, ex ea commodo in voluptate velit esseglpat-imperdiet",
            expected: "Lorem ipsum dolor sit amet, ex ea commodo in voluptate velit esseglpat-[MASKED]",
        },
        // prefix at the beginning of the line
        TestCase {
            prefixes: vec![],
            input: "glpat-imperdiet Lorem ipsum dolor sit amet, ex ea commodo in voluptate velit esse",
            expected: "glpat-[MASKED] Lorem ipsum dolor sit amet, ex ea commodo in voluptate velit esse",
        },
        // prefix inside of the line
        TestCase {
            prefixes: vec![],
            input: "esseglpat-imperdiet=_-. end Lorem ipsum dolor sit amet, ex ea commodo  in voluptate velit",
            expected: "esseglpat-[MASKED] end Lorem ipsum dolor sit amet, ex ea commodo  in voluptate velit",
        },
        // two prefix concatenate
        TestCase {
            prefixes: vec![],
            input: "glpat-impglpat-erdiet Lorem ipsum dolor sit amet, ex ea commodo  in voluptate velit esse",
            expected: "glpat-[MASKED] Lorem ipsum dolor sit amet, ex ea commodo  in voluptate velit esse",
        },
        // multiple packets pat masking
        TestCase {
            prefixes: vec![],
            input: "glpat|-imperdiet Lorem ipsum dolor sit amet, ex ea commodo gl|pat-imperdiet in voluptate velit esse",
            expected: "glpat-[MASKED] Lorem ipsum dolor sit amet, ex ea commodo glpat-[MASKED] in voluptate velit esse",
        },
        // second multiple packets pat masking
        TestCase {
            prefixes: vec![],
            input: "glpat| -imperdiet Lorem ipsum dolor sit amet",
            expected: "glpat -imperdiet Lorem ipsum dolor sit amet",
        },
        // long input
        TestCase {
            prefixes: vec![],
            input: "Lorglpat-ipsu dolor sit amglpat-t, consglpat-ctglpat-tur adipiscing glpat-lit, sglpat-d do glpat-iusmod tglpat-mpor incididunt ut laborglpat-=_ glpat-t dolorglpat-=_ magna aliqua.",
            expected: "Lorglpat-[MASKED] dolor sit amglpat-[MASKED], consglpat-[MASKED] adipiscing glpat-[MASKED], sglpat-[MASKED] do glpat-[MASKED] tglpat-[MASKED] incididunt ut laborglpat-[MASKED] glpat-[MASKED] dolorglpat-[MASKED] magna aliqua.",
        },
        // multiple packets long input
        TestCase {
            prefixes: vec![],
            input: "Lorglpat-ipsu dolor sit amglp|at-t, consglpat-ctg|lpat-tur adipiscing glpat-lit, sglpat-|d do glpat-iusmod t|glpat-mpor incididunt ut |laborglpat-=_ glpat-t dolorglpat-=_ magna aliqua.",
            expected: "Lorglpat-[MASKED] dolor sit amglpat-[MASKED], consglpat-[MASKED] adipiscing glpat-[MASKED], sglpat-[MASKED] do glpat-[MASKED] tglpat-[MASKED] incididunt ut laborglpat-[MASKED] glpat-[MASKED] dolorglpat-[MASKED] magna aliqua.",
        },
        // second long input
        TestCase {
            prefixes: vec![],
            input: "Lorglpat- ipsu dolor sit amglpat-t, consglpat-ctglpat-tur adipiscing glpat-lit, sglpat-d do glpat-iusmod tglpat-mpor incididunt ut laborglpat-=_ glpat-t dolorglpat-=_ magna aliqua.",
            expected: "Lorglpat- ipsu dolor sit amglpat-[MASKED], consglpat-[MASKED] adipiscing glpat-[MASKED], sglpat-[MASKED] do glpat-[MASKED] tglpat-[MASKED] incididunt ut laborglpat-[MASKED] glpat-[MASKED] dolorglpat-[MASKED] magna aliqua.",
        },
        // custom prefix with default one at the beginning of the line
        TestCase {
            prefixes: vec!["token-"],
            input: "token-imperdiet Lorem ipsum dolor sit amet, ex ea commodo in voluptate velit esse",
            expected: "token-[MASKED] Lorem ipsum dolor sit amet, ex ea commodo in voluptate velit esse",
        },
        // custom prefix with default one multiple packets long input
        TestCase {
            prefixes: vec!["tok-"],
            input: "Lortok-ipsu dolor sit amt|ok-t, cons-ctg|lpat-tur adipiscing tok-lit, stok-|d do tok-iusmod t|tok-mpor incididunt ut |labortok-=_ tok-t dolortok-=_ magna aliqua. Tglpat-llus orci ac auctor auguglpat-eee mauris auguglpat-wEr_ lorem",
            expected: "Lortok-[MASKED] dolor sit amtok-[MASKED], cons-ctglpat-[MASKED] adipiscing tok-[MASKED], stok-[MASKED] do tok-[MASKED] ttok-[MASKED] incididunt ut labortok-[MASKED] tok-[MASKED] dolortok-[MASKED] magna aliqua. Tglpat-[MASKED] orci ac auctor auguglpat-[MASKED] mauris auguglpat-[MASKED] lorem",
        },
        // ignored eleventh prefix and more
        TestCase {
            prefixes: vec![
                "mask1-", "mask2-", "mask3-", "mask4-", "mask5-", "mask6-", "mask7-", "mask8-",
                "mask9-", "mask10-", "mask11-",
            ],
            input: "Lormask1-ipsu dolor sit amm|ask2-t, cons-ctg|lpat-tur adipiscing mask5-lit, smask11-|d do mask7-iusmod t|glpat-mpor incididunt ut |labormask10-=_ mask9-t",
            expected: "Lormask1-[MASKED] dolor sit ammask2-[MASKED], cons-ctglpat-[MASKED] adipiscing mask5-[MASKED], smask11-d do mask7-[MASKED] tglpat-[MASKED] incididunt ut labormask10-=_ mask9-[MASKED]",
        },
        // whitespaced prefixes
        TestCase {
            prefixes: vec![
                " mask1- ", "\tmask2-", "mask3-\t", "mask4-", "mask5-", "mask6-", "mask7-",
                "mask8-", "mask9-",
            ],
            input: "Lormask1-ipsu dolor sit amm|ask2-t, cons-ctg|lpat-tur adipiscing mask5-lit, smask11-|d do mask7-iusmod t|glpat-mpor incididunt ut |labormask10-=_ mask9-t",
            expected: "Lormask1-[MASKED] dolor sit ammask2-[MASKED], cons-ctglpat-[MASKED] adipiscing mask5-[MASKED], smask11-d do mask7-[MASKED] tglpat-[MASKED] incididunt ut labormask10-=_ mask9-[MASKED]",
        },
    ]
}

fn prefixes_of(t: &TestCase) -> Vec<String> {
    let mut prefixes = vec!["glpat-".to_string()];
    for prefix in t.prefixes.iter().take(9) {
        prefixes.push(prefix.to_string());
    }
    prefixes
}

fn read(archive: &mut Artifact, name: &str) -> Vec<u8> {
    let mut data = Vec::new();
    let mut file = archive.file(name).expect("failed to obtain file");
    file.read_to_end(&mut data).expect("failed to read file");
    data
}

#[test]
fn mask_test() {
    for t in cases() {
        let text = t.input.split('|').collect::<Vec<_>>().join("");
        let text = format!("{}\n", text);
        let expected = format!("{}\n", t.expected);
        let mut log = JobLog::with_token_prefixes(&prefixes_of(&t));
        log.trace(text.as_bytes());
        let data = log.split_trace().unwrap();
        assert_eq!(data.as_slice(), expected.as_bytes());

        let artifact = JobArtifact {
            name: None,
            untracked: false,
            paths: vec!["*".to_string()],
            when: ArtifactWhen::default(),
            artifact_type: "archive".to_string(),
            artifact_format: ArtifactFormat::Zip,
            expire_in: None,
        };
        let mut uploader = Uploader::new(&artifact, &prefixes_of(&t));
        uploader.masked_file("masked".to_string()).unwrap();
        uploader.write(text.as_bytes());
        uploader.file("baseline".to_string()).unwrap();
        uploader.write(t.input.as_bytes());
        let mut archive = Artifact::new(uploader.finish().unwrap()).unwrap();
        assert_eq!(read(&mut archive, "masked"), expected.as_bytes());
        assert_eq!(read(&mut archive, "baseline"), t.input.as_bytes());
    }
}

#[test]
fn masked_files_in_packets() {
    for t in cases() {
        let artifact = JobArtifact {
            name: None,
            untracked: false,
            paths: Vec::new(),
            when: ArtifactWhen::default(),
            artifact_type: "archive".to_string(),
            artifact_format: ArtifactFormat::Zip,
            expire_in: None,
        };
        let mut uploader = Uploader::new(&artifact, &prefixes_of(&t));
        uploader.masked_file("masked".to_string()).unwrap();
        for packet in t.input.split('|') {
            uploader.write(packet.as_bytes());
        }
        let mut archive = Artifact::new(uploader.finish().unwrap()).unwrap();
        assert_eq!(read(&mut archive, "masked"), t.expected.as_bytes());
    }
}

#[test]
fn mask_in_packets() {
    for t in cases() {
        let mut masker = Masker::new(&prefixes_of(&t));
        let mut data = Vec::new();
        for packet in t.input.split('|') {
            data.extend(masker.mask(packet.as_bytes()));
        }
        assert_eq!(data.as_slice(), t.expected.as_bytes());
    }
}

#[test]
fn plain_log_is_kept() {
    let mut log = JobLog::new();
    log.trace(b"glpat-secret ");
    log.trace(b"stays");
    assert_eq!(log.split_trace(), Some(b"glpat-secret stays".to_vec()));
    assert_eq!(log.split_trace(), None);
}

#[test]
fn masks_after_much_text() {
    let mut masker = Masker::new(&vec!["glpat-".to_string(), "another-longer-".to_string()]);
    let filler = ". ".repeat(5000);
    let text = format!("{filler}glpat-abc {filler}another-longer-abc {filler}");
    let shown = format!("{filler}glpat-[MASKED] {filler}another-longer-[MASKED] {filler}");
    let mut out = Vec::new();
    for chunk in text.as_bytes().chunks(7) {
        out.extend(masker.mask(chunk));
    }
    assert_eq!(String::from_utf8(out).unwrap(), shown);
}
