use block_directory::format::FileExtension;
use block_directory::format::FormatError;
use block_directory::format::ListingFormat;
use block_directory::format::TableFormat;
use block_directory::session::HostConfig;
use block_directory::session::ResourceDescriptor;
use block_directory::session::SearchIndexCreateOptions;
use block_directory::session::WriterResources;

fn config() -> HostConfig {
    HostConfig {
        create_index_parallelism: 8,
        create_index_memory_budget: 1_000_000,
        statement_parallelism: 1,
        statement_memory_budget: 15_000,
    }
}

fn options(merge_on_insert: bool) -> SearchIndexCreateOptions {
    SearchIndexCreateOptions { target_segment_count: 4, merge_on_insert }
}

#[test]
fn create_index_takes_creation_budget_and_always_merges() {
    let r = WriterResources::CreateIndex.resources(&config(), &options(false));
    assert_eq!(
        r,
        ResourceDescriptor {
            parallelism: 8,
            memory_budget: 1_000_000,
            target_segment_count: 4,
            do_merging: true,
        }
    );
}

#[test]
fn statement_merges_only_when_the_index_asks() {
    let r = WriterResources::Statement.resources(&config(), &options(false));
    assert_eq!(
        r,
        ResourceDescriptor {
            parallelism: 1,
            memory_budget: 15_000,
            target_segment_count: 4,
            do_merging: false,
        }
    );
    let r = WriterResources::Statement.resources(&config(), &options(true));
    assert!(r.do_merging);
}

#[test]
fn vacuum_takes_statement_budget_and_always_merges() {
    let r = WriterResources::Vacuum.resources(&config(), &options(false));
    assert_eq!(
        r,
        ResourceDescriptor {
            parallelism: 1,
            memory_budget: 15_000,
            target_segment_count: 4,
            do_merging: true,
        }
    );
}

#[test]
fn table_format_names_round_trip() {
    assert_eq!(TableFormat::NoFormat.as_str(), "");
    assert_eq!(TableFormat::Delta.as_str(), "delta");
    assert_eq!(TableFormat::from(""), TableFormat::NoFormat);
    assert_eq!(TableFormat::from("delta"), TableFormat::Delta);
    assert_eq!(TableFormat::from("iceberg"), TableFormat::NoFormat);
}

#[test]
fn table_format_iter_lists_both() {
    let all = TableFormat::iter();
    assert_eq!(all, vec![TableFormat::NoFormat, TableFormat::Delta]);
}

#[test]
fn known_extensions_name_their_format() {
    assert_eq!(
        FileExtension("avro".to_string()).listing_format().unwrap(),
        ListingFormat::Avro
    );
    assert_eq!(FileExtension("CSV".to_string()).listing_format().unwrap(), ListingFormat::Csv);
    assert_eq!(
        FileExtension("Json".to_string()).listing_format().unwrap(),
        ListingFormat::Json
    );
    assert_eq!(
        FileExtension("parquet".to_string()).listing_format().unwrap(),
        ListingFormat::Parquet
    );
}

#[test]
fn unknown_extension_is_reported_in_the_error() {
    let result = FileExtension("orc".to_string()).listing_format();
    match result {
        Err(FormatError::InvalidFileFormat(name)) => assert_eq!(name, "orc"),
        Ok(_) => panic!("an unsupported extension must be refused"),
    }
}
