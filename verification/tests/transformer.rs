//! The whole transformation on real token streams: parse a record
//! declaration with syn, hand the plain model to the library, splice the
//! rewritten argument lists back into the tree, and compare the re-emitted
//! source.

use std::str::FromStr;

use proc_macro2::{Delimiter, Group, Ident, Span, TokenStream, TokenTree};
use quote::ToTokens;
use syn::punctuated::Punctuated;
use syn::spanned::Spanned;
use syn::token::Comma;
use syn::{Lit, LitStr, Meta, MetaNameValue, NestedMeta, Path};

use clap_prefix::entry::ArgEntry;
use clap_prefix::record::{clap_prefix, Attr, AttrArgs, FieldDecl, Record};

fn entry_of(item: &NestedMeta) -> ArgEntry {
    match item {
        NestedMeta::Meta(meta) => match meta.path().get_ident() {
            Some(ident) => {
                let name = ident.to_string();
                match meta {
                    Meta::Path(_) => ArgEntry::Bare(name),
                    Meta::NameValue(MetaNameValue { lit: Lit::Str(lit_str), .. }) => {
                        ArgEntry::NameValue(name, lit_str.value())
                    }
                    _ => ArgEntry::NamedOther(name, meta.to_token_stream().to_string()),
                }
            }
            None => ArgEntry::Other(item.to_token_stream().to_string()),
        },
        NestedMeta::Lit(_) => ArgEntry::Other(item.to_token_stream().to_string()),
    }
}

fn entry_to_meta(e: &ArgEntry, span: Span) -> NestedMeta {
    match e {
        ArgEntry::Bare(n) => NestedMeta::Meta(Meta::Path(Path::from(Ident::new(n, span)))),
        ArgEntry::NameValue(n, v) => NestedMeta::Meta(Meta::NameValue(MetaNameValue {
            path: Path::from(Ident::new(n, span)),
            eq_token: syn::token::Eq { spans: [span] },
            lit: Lit::Str(LitStr::new(v, span)),
        })),
        ArgEntry::NamedOther(_, text) | ArgEntry::Other(text) => {
            syn::parse_str::<NestedMeta>(text).expect("entry text parses back")
        }
    }
}

fn model_of(item: &syn::ItemStruct) -> Record {
    let mut fields = Vec::new();
    for field in item.fields.iter() {
        let mut attrs = Vec::new();
        for attribute in field.attrs.iter() {
            let args = if attribute.path.is_ident("arg") {
                match attribute.parse_meta() {
                    Ok(Meta::List(meta)) => {
                        AttrArgs::Entries(meta.nested.iter().map(entry_of).collect())
                    }
                    _ => AttrArgs::Opaque(attribute.tokens.to_string()),
                }
            } else {
                AttrArgs::Opaque(attribute.tokens.to_string())
            };
            attrs.push(Attr { path: attribute.path.to_token_stream().to_string(), args });
        }
        fields.push(FieldDecl {
            ident: field.ident.as_ref().map(|i| i.to_string()),
            attrs,
        });
    }
    Record { name: item.ident.to_string(), fields }
}

fn apply(item: &mut syn::ItemStruct, rewritten: &Record) {
    for (field, new_field) in item.fields.iter_mut().zip(rewritten.fields.iter()) {
        for (attribute, new_attr) in field.attrs.iter_mut().zip(new_field.attrs.iter()) {
            if let AttrArgs::Entries(entries) = &new_attr.args {
                let span = attribute.span();
                let mut punct: Punctuated<NestedMeta, Comma> = Punctuated::new();
                for e in entries {
                    punct.push(entry_to_meta(e, span));
                }
                let group = Group::new(Delimiter::Parenthesis, punct.to_token_stream());
                attribute.tokens = TokenStream::from(TokenTree::Group(group));
            }
        }
    }
}

fn clap_prefix_inner(args: TokenStream, input: TokenStream) -> syn::Result<TokenStream> {
    let _ = args;
    let mut item: syn::ItemStruct = syn::parse2(input)?;
    let record = model_of(&item);
    let rewritten = clap_prefix(&record);
    apply(&mut item, &rewritten);
    Ok(item.into_token_stream())
}

#[test]
fn test() {
    let input_string = r#"
    pub struct Keycloak {
        #[arg()]
        pub server_url: String,
        #[arg(long, env, default_value="master")]
        pub realm: String,
        #[arg(long="clientid")]
        pub client_id: String,
        #[arg(long, value_name)]
        pub secret: String,
    }
    "#;

    let input_token_stream = TokenStream::from_str(input_string).unwrap();
    let output_token_stream =
        clap_prefix_inner(TokenStream::from_str("").unwrap(), input_token_stream);
    let file = syn::parse_file(&output_token_stream.unwrap().to_string()).unwrap();
    let result = prettyplease::unparse(&file);

    let expected = r#"
    pub struct Keycloak {
        #[arg(id = "keycloak_server_url", value_name = "KEYCLOAK_SERVER_URL")]
        pub server_url: String,
        #[arg(
            default_value = "master",
            id = "keycloak_realm",
            value_name = "KEYCLOAK_REALM",
            long = "keycloak-realm",
            env = "KEYCLOAK_REALM"
        )]
        pub realm: String,
        #[arg(
            id = "keycloak_client_id",
            value_name = "KEYCLOAK_CLIENT_ID",
            long = "clientid"
        )]
        pub client_id: String,
        #[arg(
            id = "keycloak_secret",
            value_name = "KEYCLOAK_SECRET",
            long = "keycloak-secret"
        )]
        pub secret: String,
    }
    "#;

    assert_eq!(
        result,
        prettyplease::unparse(&syn::parse_file(expected).unwrap())
    );
}

#[test]
fn non_arg_attribute_tokens_are_byte_identical() {
    let input_string = r#"
    pub struct Config {
        #[serde(rename = "x")]
        #[arg(long)]
        pub port: String,
    }
    "#;
    let input_token_stream = TokenStream::from_str(input_string).unwrap();
    let output_token_stream =
        clap_prefix_inner(TokenStream::from_str("").unwrap(), input_token_stream).unwrap();
    let item: syn::ItemStruct = syn::parse2(output_token_stream).unwrap();
    let serde_attr = &item.fields.iter().next().unwrap().attrs[0];
    assert_eq!(serde_attr.path.to_token_stream().to_string(), "serde");
    assert_eq!(serde_attr.tokens.to_string(), "(rename = \"x\")");
}

#[test]
fn unparsable_target_attribute_is_skipped_silently() {
    let input_string = r#"
    pub struct Config {
        #[arg]
        pub port: String,
    }
    "#;
    let input_token_stream = TokenStream::from_str(input_string).unwrap();
    let output_token_stream =
        clap_prefix_inner(TokenStream::from_str("").unwrap(), input_token_stream).unwrap();
    let item: syn::ItemStruct = syn::parse2(output_token_stream).unwrap();
    let arg_attr = &item.fields.iter().next().unwrap().attrs[0];
    assert!(arg_attr.tokens.is_empty());
}

#[test]
fn parse_failure_is_fatal_and_yields_no_output() {
    let input_token_stream = TokenStream::from_str("fn not_a_struct() {}").unwrap();
    let result = clap_prefix_inner(TokenStream::from_str("").unwrap(), input_token_stream);
    assert!(result.is_err());
}

#[test]
fn auxiliary_arguments_are_accepted_and_ignored() {
    let input_string = r#"
    pub struct App {
        #[arg()]
        pub name: String,
    }
    "#;
    let with_args = clap_prefix_inner(
        TokenStream::from_str("some, future = \"options\"").unwrap(),
        TokenStream::from_str(input_string).unwrap(),
    )
    .unwrap();
    let without_args = clap_prefix_inner(
        TokenStream::from_str("").unwrap(),
        TokenStream::from_str(input_string).unwrap(),
    )
    .unwrap();
    assert_eq!(with_args.to_string(), without_args.to_string());
}
