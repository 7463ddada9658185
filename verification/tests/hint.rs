use dircat::hint::get_language_hint;
use dircat::text::{char_is_whitespace, fold_char};

const TABLE: [(&str, &str); 43] = [
    ("py", "python"),
    ("js", "javascript"),
    ("ts", "typescript"),
    ("jsx", "jsx"),
    ("tsx", "tsx"),
    ("java", "java"),
    ("c", "c"),
    ("cpp", "cpp"),
    ("cs", "csharp"),
    ("php", "php"),
    ("rb", "ruby"),
    ("go", "go"),
    ("rs", "rust"),
    ("kt", "kotlin"),
    ("swift", "swift"),
    ("m", "objectivec"),
    ("scala", "scala"),
    ("sh", "bash"),
    ("bash", "bash"),
    ("zsh", "zsh"),
    ("fish", "fish"),
    ("ps1", "powershell"),
    ("r", "r"),
    ("sql", "sql"),
    ("html", "html"),
    ("htm", "html"),
    ("xml", "xml"),
    ("css", "css"),
    ("scss", "scss"),
    ("sass", "sass"),
    ("less", "less"),
    ("json", "json"),
    ("yaml", "yaml"),
    ("yml", "yaml"),
    ("toml", "toml"),
    ("ini", "ini"),
    ("cfg", "ini"),
    ("conf", "conf"),
    ("md", "markdown"),
    ("markdown", "markdown"),
    ("rst", "rst"),
    ("tex", "latex"),
    ("txt", ""),
];

#[test]
fn hint_of_every_known_extension() {
    for (ext, hint) in TABLE {
        assert_eq!(get_language_hint(&format!("file.{}", ext)), hint, "extension {}", ext);
        assert_eq!(get_language_hint(&format!("some/dir/file.{}", ext)), hint);
    }
}

#[test]
fn hint_ignores_case_of_extension() {
    assert_eq!(get_language_hint("Foo.PY"), "python");
    assert_eq!(get_language_hint("foo.py"), "python");
    assert_eq!(get_language_hint("foo.Py"), "python");
    for (ext, hint) in TABLE {
        let upper = ext.to_uppercase();
        assert_eq!(get_language_hint(&format!("FILE.{}", upper)), hint, "extension {}", upper);
    }
}

#[test]
fn hint_is_empty_without_known_extension() {
    assert_eq!(get_language_hint(""), "");
    assert_eq!(get_language_hint("Makefile"), "");
    assert_eq!(get_language_hint("archive.xyz"), "");
    assert_eq!(get_language_hint("notes."), "");
    assert_eq!(get_language_hint("a.pyc"), "");
    assert_eq!(get_language_hint("a.p"), "");
}

#[test]
fn hint_reads_only_the_last_extension_of_the_bare_name() {
    assert_eq!(get_language_hint("archive.tar.py"), "python");
    assert_eq!(get_language_hint("script.py.bak"), "");
    assert_eq!(get_language_hint("dir.py/readme"), "");
    assert_eq!(get_language_hint("dir.py/readme.md"), "markdown");
    assert_eq!(get_language_hint("a.b/c.d/e.RS"), "rust");
}

#[test]
fn hint_of_dot_file_has_no_extension() {
    assert_eq!(get_language_hint(".py"), "");
    assert_eq!(get_language_hint("dir/.py"), "");
    assert_eq!(get_language_hint(".bashrc"), "");
    assert_eq!(get_language_hint("..py"), "python");
    assert_eq!(get_language_hint(".config.toml"), "toml");
}

#[test]
fn hint_agrees_with_std_paths() {
    let names = [
        "a.py", "A.PY", ".py", "..py", "a.", "a", "", "x/y.Md", "x.md/y", "x/.md", "a.b.c.JSON",
        "a.\u{212A}t", "a.\u{212A}T", "a.\u{130}ni", "a.p\u{fb}", "weird name.Tex", "a..yml",
    ];
    for name in names {
        let ext = std::path::Path::new(name).extension().and_then(|e| e.to_str()).map(|s| {
            s.to_lowercase()
        });
        let expected = match ext {
            Some(ext) => TABLE.iter().find(|(e, _)| *e == ext).map(|(_, h)| *h).unwrap_or(""),
            None => "",
        };
        assert_eq!(get_language_hint(name), expected, "name {:?}", name);
    }
}

#[test]
fn hint_knows_the_kelvin_sign() {
    assert_eq!(get_language_hint("Main.\u{212A}T"), "kotlin");
}

#[test]
fn fold_char_agrees_with_std_wherever_ascii_comes_out() {
    let mut c = '\0';
    loop {
        let lower: String = c.to_lowercase().collect();
        if lower.is_ascii() {
            assert_eq!(fold_char(c).to_string(), lower, "char {:?}", c);
        } else {
            assert_eq!(fold_char(c), c, "char {:?}", c);
        }
        if c == char::MAX {
            break;
        }
        c = match char::from_u32(c as u32 + 1) {
            Some(next) => next,
            None => '\u{E000}',
        };
    }
}

#[test]
fn whitespace_agrees_with_std() {
    let mut c = '\0';
    loop {
        assert_eq!(char_is_whitespace(c), c.is_whitespace(), "char {:?}", c);
        if c == char::MAX {
            break;
        }
        c = match char::from_u32(c as u32 + 1) {
            Some(next) => next,
            None => '\u{E000}',
        };
    }
}
