use ddns_updater::settings::{Param, ParamError};
use ddns_updater::text::{write_record, write_tuple};

#[test]
fn url_value_is_taken_as_it_stands() {
    match Param::try_parse("url=https://example.org/update?a=b&c=d") {
        Ok(Param::Url(url)) => assert_eq!(url, "https://example.org/update?a=b&c=d"),
        other => panic!("{:?}", other),
    }
    match Param::try_parse("url=") {
        Ok(Param::Url(url)) => assert_eq!(url, ""),
        other => panic!("{:?}", other),
    }
}

#[test]
fn host_value_holds_host_and_domain() {
    match Param::try_parse("host=www:example.org") {
        Ok(Param::Host { host, domain }) => {
            assert_eq!(host, "www");
            assert_eq!(domain, "example.org");
        },
        other => panic!("{:?}", other),
    }
}

#[test]
fn key_value_holds_key_and_domain() {
    match Param::try_parse("key=s3cr3t:example.org") {
        Ok(Param::ApiKey { key, domain }) => {
            assert_eq!(key, "s3cr3t");
            assert_eq!(domain, "example.org");
        },
        other => panic!("{:?}", other),
    }
}

#[test]
fn value_is_cut_at_its_first_colon_only() {
    match Param::parse_host("www:example.org:8080") {
        Ok(Param::Host { host, domain }) => {
            assert_eq!(host, "www");
            assert_eq!(domain, "example.org:8080");
        },
        other => panic!("{:?}", other),
    }
    match Param::parse_key(":") {
        Ok(Param::ApiKey { key, domain }) => {
            assert_eq!(key, "");
            assert_eq!(domain, "");
        },
        other => panic!("{:?}", other),
    }
}

#[test]
fn value_without_colon_is_at_fault() {
    match Param::try_parse("host=www.example.org") {
        Err(ParamError::InvalidParamFormat(text)) => assert_eq!(text, "www.example.org"),
        other => panic!("{:?}", other),
    }
    match Param::parse_key("") {
        Err(ParamError::InvalidParamFormat(text)) => assert_eq!(text, ""),
        other => panic!("{:?}", other),
    }
}

#[test]
fn text_without_equals_sign_is_at_fault_as_a_whole() {
    match Param::try_parse("host:www:example.org") {
        Err(ParamError::InvalidParamFormat(text)) => assert_eq!(text, "host:www:example.org"),
        other => panic!("{:?}", other),
    }
    match Param::try_parse("") {
        Err(ParamError::InvalidParamFormat(text)) => assert_eq!(text, ""),
        other => panic!("{:?}", other),
    }
}

#[test]
fn unknown_key_is_named() {
    match Param::try_parse("port=8080") {
        Err(ParamError::UnknownParam(name)) => assert_eq!(name, "port"),
        other => panic!("{:?}", other),
    }
    match Param::try_parse("=value") {
        Err(ParamError::UnknownParam(name)) => assert_eq!(name, ""),
        other => panic!("{:?}", other),
    }
    match Param::try_parse("Host=www:example.org") {
        Err(ParamError::UnknownParam(name)) => assert_eq!(name, "Host"),
        other => panic!("{:?}", other),
    }
    match Param::try_parse("hosts=www:example.org") {
        Err(ParamError::UnknownParam(name)) => assert_eq!(name, "hosts"),
        other => panic!("{:?}", other),
    }
    match Param::try_parse("ke=x:y") {
        Err(ParamError::UnknownParam(name)) => assert_eq!(name, "ke"),
        other => panic!("{:?}", other),
    }
}

#[test]
fn key_and_value_lie_around_the_first_equals_sign() {
    match Param::try_parse("url=a=b") {
        Ok(Param::Url(url)) => assert_eq!(url, "a=b"),
        other => panic!("{:?}", other),
    }
    match Param::try_parse("clé=völue") {
        Err(ParamError::UnknownParam(name)) => assert_eq!(name, "clé"),
        other => panic!("{:?}", other),
    }
}

#[test]
fn param_text_is_what_debug_writes() {
    let params = [
        Param::Host { host: "www".to_string(), domain: "example.org".to_string() },
        Param::ApiKey { key: "a\"b\\c".to_string(), domain: "tab\there".to_string() },
        Param::Url("https://example.org/é?q=\n".to_string()),
    ];
    for param in params {
        assert_eq!(param.to_text(), format!("{:?}", param));
    }
    let url = Param::Url("u".to_string());
    assert_eq!(url.to_text(), "Url(\"u\")");
    let host = Param::Host { host: "h".to_string(), domain: "d".to_string() };
    assert_eq!(host.to_text(), "Host { host: \"h\", domain: \"d\" }");
    let key = Param::ApiKey { key: "k".to_string(), domain: "d".to_string() };
    assert_eq!(key.to_text(), "ApiKey { key: \"k\", domain: \"d\" }");
}

#[test]
fn param_error_text_is_what_debug_writes() {
    let errors = [
        ParamError::InvalidParamFormat("no equals sign".to_string()),
        ParamError::UnknownParam("po\"rt".to_string()),
    ];
    for error in errors {
        assert_eq!(error.to_text(), format!("{:?}", error));
    }
    let unknown = ParamError::UnknownParam("port".to_string());
    assert_eq!(unknown.to_text(), "UnknownParam(\"port\")");
    let invalid = ParamError::InvalidParamFormat("x".to_string());
    assert_eq!(invalid.to_text(), "InvalidParamFormat(\"x\")");
}

#[test]
fn written_shapes() {
    assert_eq!(write_tuple("Url", "\"u\""), "Url(\"u\")");
    assert_eq!(write_tuple("", ""), "()");
    assert_eq!(write_record("Host", "host", "1", "domain", "2"), "Host { host: 1, domain: 2 }");
}
